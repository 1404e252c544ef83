//! Instruction words: a tagged 32-bit encoding with three formats (R/I/J)
//! sharing a 6-bit opcode in the top bits, plus a `Data` form for every bit
//! pattern that is not a valid instruction.

use vstd::prelude::*;

verus! {

/// The 6-bit opcodes. `MATH` covers the six R-format ALU operations.
#[derive(Clone, Copy, Debug, PartialEq, Eq, Structural)]
pub enum OpCode {
    LW,
    SW,
    ADDI,
    /// ADD, SLL, SRL, SUB, AND, OR
    MATH,
    BEQZ,
    JALR,
    HALT,
}

/// The 6-bit function field of an R-format (`MATH`) word.
#[derive(Clone, Copy, Debug, PartialEq, Eq, Structural)]
pub enum MathFunc {
    ADD,
    SLL,
    SRL,
    SUB,
    AND,
    OR,
}

/// The three instruction formats.
#[derive(Clone, Copy, Debug, PartialEq, Eq, Structural)]
pub enum InstructionType {
    J,
    I,
    R,
}

/// R-format fields: `[opcode:6][rs:5][rt:5][rd:5][shamt:5][func:6]`.
#[derive(Clone, Copy, Debug, PartialEq, Eq, Structural)]
pub struct RTypeInstruction {
    pub func: MathFunc,
    pub rs: u8,
    pub rt: u8,
    pub rd: u8,
    /// shamt is carried but never used by the ALU
    pub shamt: u8,
}

/// I-format fields: `[opcode:6][rs:5][rt:5][imm:16]`; `imm` holds the two's
/// complement bits of a signed 16-bit immediate.
#[derive(Clone, Copy, Debug, PartialEq, Eq, Structural)]
pub struct ITypeInstruction {
    pub op: OpCode,
    pub rs: u8,
    pub rt: u8,
    pub imm: u16,
}

/// J-format fields: `[opcode:6][offset:26]`.
#[derive(Clone, Copy, Debug, PartialEq, Eq, Structural)]
pub struct JTypeInstruction {
    pub op: OpCode,
    pub offset: u32,
}

/// A decoded 32-bit word: one variant per format, and `Data` for every word
/// whose opcode (or, under `MATH`, whose function field) is not defined.
#[derive(Clone, Copy, Debug, PartialEq, Eq, Structural)]
pub enum Instruction {
    R(RTypeInstruction),
    I(ITypeInstruction),
    J(JTypeInstruction),
    Data(u32),
}

// ---------------------------------------------------------------------------
// Bit-level positions of the fields inside a word.
// ---------------------------------------------------------------------------

pub open spec fn word_op(w: u32) -> u32 {
    w >> 26
}

pub open spec fn word_rs(w: u32) -> u32 {
    (w >> 21) & 0x1f
}

pub open spec fn word_rt(w: u32) -> u32 {
    (w >> 16) & 0x1f
}

pub open spec fn word_rd(w: u32) -> u32 {
    (w >> 11) & 0x1f
}

pub open spec fn word_shamt(w: u32) -> u32 {
    (w >> 6) & 0x1f
}

pub open spec fn word_func(w: u32) -> u32 {
    w & 0x3f
}

pub open spec fn word_imm(w: u32) -> u32 {
    w & 0xffff
}

pub open spec fn word_offset(w: u32) -> u32 {
    w & 0x3ffffff
}

/// Every field extraction stays inside the width of its field.
pub proof fn lemma_word_field_bounds(w: u32)
    by (bit_vector)
    ensures
        word_op(w) < 64,
        word_rs(w) < 32,
        word_rt(w) < 32,
        word_rd(w) < 32,
        word_shamt(w) < 32,
        word_func(w) < 64,
        word_imm(w) < 0x10000,
        word_offset(w) < 0x4000000,
{
}

// ---------------------------------------------------------------------------
// Opcode and function numbering.
// ---------------------------------------------------------------------------

pub open spec fn op_bits(op: OpCode) -> u32 {
    match op {
        OpCode::MATH => 0x00,
        OpCode::BEQZ => 0x04,
        OpCode::ADDI => 0x08,
        OpCode::JALR => 0x13,
        OpCode::LW => 0x23,
        OpCode::SW => 0x2b,
        OpCode::HALT => 0x3f,
    }
}

pub open spec fn op_of_bits(b: u32) -> Option<OpCode> {
    if b == 0x00 {
        Some(OpCode::MATH)
    } else if b == 0x04 {
        Some(OpCode::BEQZ)
    } else if b == 0x08 {
        Some(OpCode::ADDI)
    } else if b == 0x13 {
        Some(OpCode::JALR)
    } else if b == 0x23 {
        Some(OpCode::LW)
    } else if b == 0x2b {
        Some(OpCode::SW)
    } else if b == 0x3f {
        Some(OpCode::HALT)
    } else {
        None
    }
}

pub open spec fn func_bits(f: MathFunc) -> u32 {
    match f {
        MathFunc::SLL => 0x04,
        MathFunc::SRL => 0x06,
        MathFunc::ADD => 0x20,
        MathFunc::SUB => 0x22,
        MathFunc::AND => 0x24,
        MathFunc::OR => 0x25,
    }
}

pub open spec fn func_of_bits(b: u32) -> Option<MathFunc> {
    if b == 0x04 {
        Some(MathFunc::SLL)
    } else if b == 0x06 {
        Some(MathFunc::SRL)
    } else if b == 0x20 {
        Some(MathFunc::ADD)
    } else if b == 0x22 {
        Some(MathFunc::SUB)
    } else if b == 0x24 {
        Some(MathFunc::AND)
    } else if b == 0x25 {
        Some(MathFunc::OR)
    } else {
        None
    }
}

/// `op` belongs to the I-format.
pub open spec fn is_i_op(op: OpCode) -> bool {
    op == OpCode::ADDI || op == OpCode::BEQZ || op == OpCode::LW || op == OpCode::SW
}

/// `op` belongs to the J-format.
pub open spec fn is_j_op(op: OpCode) -> bool {
    op == OpCode::JALR || op == OpCode::HALT
}

/// `w` is not a valid instruction: its opcode is undefined, or it is a
/// `MATH` word with an undefined function field.
pub open spec fn is_data_word(w: u32) -> bool {
    if word_op(w) == 0 {
        func_of_bits(word_func(w)) is None
    } else {
        op_of_bits(word_op(w)) is None
    }
}

// ---------------------------------------------------------------------------
// Sign extension: the one canonical 16-to-32-bit helper.
// ---------------------------------------------------------------------------

/// The signed value held by a 16-bit immediate field.
pub open spec fn imm_sval(n: u16) -> int {
    if n < 0x8000 {
        n as int
    } else {
        n - 0x10000
    }
}

/// The immediate sign-extended to 32 bits, reinterpreted as unsigned.
pub open spec fn sext16(n: u16) -> u32 {
    if n < 0x8000 {
        n as u32
    } else {
        (n + 0xffff0000) as u32
    }
}

/// Sign extension as unsigned bits agrees with the signed reading modulo 2^32.
pub proof fn lemma_sext16_sval(n: u16)
    ensures
        imm_sval(n) >= 0 ==> sext16(n) == imm_sval(n),
        imm_sval(n) < 0 ==> sext16(n) == imm_sval(n) + 0x100000000,
        #[verifier::truncate] (sext16(n) as i32) == imm_sval(n),
{
    assert(#[verifier::truncate] (sext16(n) as i32) == imm_sval(n)) by (bit_vector);
}

/// Converts the 16-bit two's complement immediate to its 32-bit two's
/// complement widening, on unsigned carriers.
pub fn convert_num(num: u16) -> (r: u32)
    ensures
        r == sext16(num),
        r as i32 == imm_sval(num),
{
    proof {
        lemma_sext16_sval(num);
    }
    if num < 0x8000 {
        num as u32
    } else {
        num as u32 + 0xffff0000
    }
}

// ---------------------------------------------------------------------------
// The ALU.
// ---------------------------------------------------------------------------

/// What each `MATH` function computes: wrapping add and subtract, bitwise
/// and/or, and logical shifts whose amount is taken modulo 32.
pub open spec fn math_eval(f: MathFunc, a: u32, b: u32) -> u32 {
    match f {
        MathFunc::ADD => vstd::wrapping::u32_specs::wrapping_add(a, b),
        MathFunc::SUB => vstd::wrapping::u32_specs::wrapping_sub(a, b),
        MathFunc::SLL => vstd::wrapping::u32_specs::wrapping_shl(a, b),
        MathFunc::SRL => vstd::wrapping::u32_specs::wrapping_shr(a, b),
        MathFunc::AND => a & b,
        MathFunc::OR => a | b,
    }
}

impl MathFunc {
    /// Applies this function's ALU operation to two 32-bit operands.
    pub fn as_fn(&self, a: u32, b: u32) -> (r: u32)
        ensures
            r == math_eval(*self, a, b),
    {
        match self {
            MathFunc::ADD => a.wrapping_add(b),
            MathFunc::SUB => a.wrapping_sub(b),
            MathFunc::SLL => a.wrapping_shl(b),
            MathFunc::SRL => a.wrapping_shr(b),
            MathFunc::AND => a & b,
            MathFunc::OR => a | b,
        }
    }
}

// ---------------------------------------------------------------------------
// Encoding and decoding.
// ---------------------------------------------------------------------------

impl Instruction {
    /// Structural validity: every field fits its bit width, the opcode
    /// matches the format, and a `Data` word really decodes to no
    /// instruction.
    pub open spec fn wf(self) -> bool {
        match self {
            Instruction::R(r) => r.rs < 32 && r.rt < 32 && r.rd < 32 && r.shamt < 32,
            Instruction::I(i) => is_i_op(i.op) && i.rs < 32 && i.rt < 32,
            Instruction::J(j) => is_j_op(j.op) && j.offset < 0x4000000,
            Instruction::Data(w) => is_data_word(w),
        }
    }

    /// The 32-bit word this instruction encodes to.
    pub open spec fn spec_word(self) -> u32 {
        match self {
            Instruction::R(r) => (((r.rs as u32) << 21) | ((r.rt as u32) << 16) | ((r.rd
                as u32) << 11) | ((r.shamt as u32) << 6) | func_bits(r.func)),
            Instruction::I(i) => ((op_bits(i.op) << 26) | ((i.rs as u32) << 21) | ((i.rt
                as u32) << 16) | (i.imm as u32)),
            Instruction::J(j) => ((op_bits(j.op) << 26) | j.offset),
            Instruction::Data(w) => w,
        }
    }
}

/// The instruction a 32-bit word decodes to. Total: anything that is not a
/// valid instruction becomes `Data`.
pub open spec fn decode_word(w: u32) -> Instruction {
    let op = word_op(w);
    if op == 0x00 {
        match func_of_bits(word_func(w)) {
            Some(f) => Instruction::R(
                RTypeInstruction {
                    func: f,
                    rs: word_rs(w) as u8,
                    rt: word_rt(w) as u8,
                    rd: word_rd(w) as u8,
                    shamt: word_shamt(w) as u8,
                },
            ),
            None => Instruction::Data(w),
        }
    } else if op == 0x04 || op == 0x08 || op == 0x23 || op == 0x2b {
        Instruction::I(
            ITypeInstruction {
                op: op_of_bits(op)->Some_0,
                rs: word_rs(w) as u8,
                rt: word_rt(w) as u8,
                imm: word_imm(w) as u16,
            },
        )
    } else if op == 0x13 || op == 0x3f {
        Instruction::J(JTypeInstruction { op: op_of_bits(op)->Some_0, offset: word_offset(w) })
    } else {
        Instruction::Data(w)
    }
}

proof fn lemma_compose_r(rs: u32, rt: u32, rd: u32, sh: u32, f: u32)
    by (bit_vector)
    requires
        rs < 32,
        rt < 32,
        rd < 32,
        sh < 32,
        f < 64,
    ensures
        ((rs << 21) | (rt << 16) | (rd << 11) | (sh << 6) | f) >> 26 == 0,
        (((rs << 21) | (rt << 16) | (rd << 11) | (sh << 6) | f) >> 21) & 0x1f == rs,
        (((rs << 21) | (rt << 16) | (rd << 11) | (sh << 6) | f) >> 16) & 0x1f == rt,
        (((rs << 21) | (rt << 16) | (rd << 11) | (sh << 6) | f) >> 11) & 0x1f == rd,
        (((rs << 21) | (rt << 16) | (rd << 11) | (sh << 6) | f) >> 6) & 0x1f == sh,
        ((rs << 21) | (rt << 16) | (rd << 11) | (sh << 6) | f) & 0x3f == f,
{
}

proof fn lemma_compose_i(op: u32, rs: u32, rt: u32, imm: u32)
    by (bit_vector)
    requires
        op < 64,
        rs < 32,
        rt < 32,
        imm < 0x10000,
    ensures
        ((op << 26) | (rs << 21) | (rt << 16) | imm) >> 26 == op,
        (((op << 26) | (rs << 21) | (rt << 16) | imm) >> 21) & 0x1f == rs,
        (((op << 26) | (rs << 21) | (rt << 16) | imm) >> 16) & 0x1f == rt,
        ((op << 26) | (rs << 21) | (rt << 16) | imm) & 0xffff == imm,
{
}

proof fn lemma_compose_j(op: u32, offset: u32)
    by (bit_vector)
    requires
        op < 64,
        offset < 0x4000000,
    ensures
        ((op << 26) | offset) >> 26 == op,
        ((op << 26) | offset) & 0x3ffffff == offset,
{
}

proof fn lemma_recompose_r(w: u32)
    by (bit_vector)
    requires
        w >> 26 == 0,
    ensures
        ((((w >> 21) & 0x1f) << 21) | (((w >> 16) & 0x1f) << 16) | (((w >> 11) & 0x1f) << 11) | (((
        w >> 6) & 0x1f) << 6) | (w & 0x3f)) == w,
{
}

proof fn lemma_recompose_i(w: u32)
    by (bit_vector)
    ensures
        (((w >> 26) << 26) | (((w >> 21) & 0x1f) << 21) | (((w >> 16) & 0x1f) << 16) | (w
        & 0xffff)) == w,
{
}

proof fn lemma_recompose_j(w: u32)
    by (bit_vector)
    ensures
        (((w >> 26) << 26) | (w & 0x3ffffff)) == w,
{
}

/// Decoding inverts encoding: every well-formed instruction survives a
/// round trip through its 32-bit word unchanged.
pub proof fn lemma_decode_encode(i: Instruction)
    requires
        i.wf(),
    ensures
        decode_word(i.spec_word()) == i,
{
    match i {
        Instruction::R(r) => {
            lemma_compose_r(r.rs as u32, r.rt as u32, r.rd as u32, r.shamt as u32, func_bits(r.func));
        },
        Instruction::I(it) => {
            lemma_compose_i(op_bits(it.op), it.rs as u32, it.rt as u32, it.imm as u32);
        },
        Instruction::J(j) => {
            lemma_compose_j(op_bits(j.op), j.offset);
        },
        Instruction::Data(w) => {
        },
    }
}

/// The format of each opcode: `MATH` is R-format, `LW`, `SW`, `ADDI` and
/// `BEQZ` are I-format, `JALR` and `HALT` are J-format.
pub open spec fn spec_format_of(op: OpCode) -> InstructionType {
    match op {
        OpCode::MATH => InstructionType::R,
        OpCode::LW => InstructionType::I,
        OpCode::SW => InstructionType::I,
        OpCode::ADDI => InstructionType::I,
        OpCode::BEQZ => InstructionType::I,
        OpCode::JALR => InstructionType::J,
        OpCode::HALT => InstructionType::J,
    }
}

/// The format a valid opcode belongs to.
pub fn format_of(op: OpCode) -> (r: InstructionType)
    ensures
        r == spec_format_of(op),
        (r == InstructionType::R) == (op == OpCode::MATH),
        (r == InstructionType::I) == is_i_op(op),
        (r == InstructionType::J) == is_j_op(op),
{
    match op {
        OpCode::MATH => InstructionType::R,
        OpCode::LW | OpCode::SW | OpCode::ADDI | OpCode::BEQZ => InstructionType::I,
        OpCode::JALR | OpCode::HALT => InstructionType::J,
    }
}

impl OpCode {
    /// The 6-bit value of this opcode.
    pub fn bits(&self) -> (r: u32)
        ensures
            r == op_bits(*self),
    {
        match self {
            OpCode::MATH => 0x00,
            OpCode::BEQZ => 0x04,
            OpCode::ADDI => 0x08,
            OpCode::JALR => 0x13,
            OpCode::LW => 0x23,
            OpCode::SW => 0x2b,
            OpCode::HALT => 0x3f,
        }
    }
}

impl MathFunc {
    /// The 6-bit value of this function field.
    pub fn bits(&self) -> (r: u32)
        ensures
            r == func_bits(*self),
    {
        match self {
            MathFunc::SLL => 0x04,
            MathFunc::SRL => 0x06,
            MathFunc::ADD => 0x20,
            MathFunc::SUB => 0x22,
            MathFunc::AND => 0x24,
            MathFunc::OR => 0x25,
        }
    }
}

impl RTypeInstruction {
    /// The canonical no-op: `MATH ADD r0, r0, r0`.
    pub fn nop() -> (r: RTypeInstruction)
        ensures
            r == Self::spec_nop(),
    {
        Self::math(MathFunc::ADD, (0, 0, 0))
    }

    pub open spec fn spec_nop() -> RTypeInstruction {
        RTypeInstruction { func: MathFunc::ADD, rs: 0, rt: 0, rd: 0, shamt: 0 }
    }

    /// An R-format word with the given function and `(rd, rs, rt)`.
    pub fn math(func: MathFunc, args: (u8, u8, u8)) -> (r: RTypeInstruction)
        requires
            args.0 < 32,
            args.1 < 32,
            args.2 < 32,
        ensures
            r == (RTypeInstruction { func, rs: args.1, rt: args.2, rd: args.0, shamt: 0 }),
            Instruction::R(r).wf(),
    {
        RTypeInstruction { func, rs: args.1, rt: args.2, rd: args.0, shamt: 0 }
    }
}

impl ITypeInstruction {
    /// The immediate field read as a signed 32-bit value.
    pub fn imm_as_i32(&self) -> (r: i32)
        ensures
            r == imm_sval(self.imm),
    {
        proof {
            lemma_sext16_sval(self.imm);
        }
        #[verifier::truncate] (convert_num(self.imm) as i32)
    }
}

impl JTypeInstruction {
    /// A `JALR` word; the 16-bit offset is sign-extended, then truncated to
    /// the 26-bit offset field.
    pub fn jalr(offset: i16) -> (r: JTypeInstruction)
        ensures
            r.op == OpCode::JALR,
            r.offset == sext16(offset as u16) & 0x3ffffff,
            Instruction::J(r).wf(),
    {
        let bits = convert_num(offset as u16) & 0x3ffffff;
        proof {
            let s = sext16(offset as u16);
            assert(s & 0x3ffffff < 0x4000000) by (bit_vector);
        }
        JTypeInstruction { op: OpCode::JALR, offset: bits }
    }

    /// The `HALT` word.
    pub fn halt() -> (r: JTypeInstruction)
        ensures
            r == (JTypeInstruction { op: OpCode::HALT, offset: 0 }),
            Instruction::J(r).wf(),
    {
        JTypeInstruction { op: OpCode::HALT, offset: 0 }
    }
}

impl Instruction {
    /// The opcode, when the word is a valid instruction.
    pub fn opcode(&self) -> (r: Option<OpCode>)
        ensures
            r == self.spec_opcode(),
    {
        match self {
            Instruction::R(_) => Some(OpCode::MATH),
            Instruction::I(i) => Some(i.op),
            Instruction::J(j) => Some(j.op),
            Instruction::Data(_) => None,
        }
    }

    pub open spec fn spec_opcode(self) -> Option<OpCode> {
        match self {
            Instruction::R(_) => Some(OpCode::MATH),
            Instruction::I(i) => Some(i.op),
            Instruction::J(j) => Some(j.op),
            Instruction::Data(_) => None,
        }
    }

    /// The format of each valid instruction; `Data` has none.
    pub fn instr_type(&self) -> (r: Option<InstructionType>)
        ensures
            match *self {
                Instruction::R(_) => r == Some(InstructionType::R),
                Instruction::I(_) => r == Some(InstructionType::I),
                Instruction::J(_) => r == Some(InstructionType::J),
                Instruction::Data(_) => r is None,
            },
    {
        match self {
            Instruction::R(_) => Some(InstructionType::R),
            Instruction::I(_) => Some(InstructionType::I),
            Instruction::J(_) => Some(InstructionType::J),
            Instruction::Data(_) => None,
        }
    }

    /// The raw word when this is data, the instruction itself otherwise.
    pub fn as_data(self) -> (r: Result<u32, Instruction>)
        ensures
            match self {
                Instruction::Data(w) => r == Ok::<u32, Instruction>(w),
                _ => r == Err::<u32, Instruction>(self),
            },
    {
        match self {
            Instruction::Data(w) => Ok(w),
            _ => Err(self),
        }
    }

    /// Encodes the instruction into its 32-bit word.
    pub fn as_u32(self) -> (r: u32)
        ensures
            r == self.spec_word(),
    {
        match self {
            Instruction::R(r) => ((r.rs as u32) << 21) | ((r.rt as u32) << 16) | ((r.rd
                as u32) << 11) | ((r.shamt as u32) << 6) | r.func.bits(),
            Instruction::I(i) => (i.op.bits() << 26) | ((i.rs as u32) << 21) | ((i.rt
                as u32) << 16) | (i.imm as u32),
            Instruction::J(j) => (j.op.bits() << 26) | j.offset,
            Instruction::Data(w) => w,
        }
    }

    /// Decodes a 32-bit word; total, with invalid words becoming `Data`.
    pub fn from_u32(w: u32) -> (r: Instruction)
        ensures
            r == decode_word(w),
            r.wf(),
            r.spec_word() == w,
    {
        proof {
            lemma_word_field_bounds(w);
            lemma_encode_decode(w);
        }
        let op = w >> 26;
        if op == 0x00 {
            let func = w & 0x3f;
            let f = if func == 0x04 {
                Some(MathFunc::SLL)
            } else if func == 0x06 {
                Some(MathFunc::SRL)
            } else if func == 0x20 {
                Some(MathFunc::ADD)
            } else if func == 0x22 {
                Some(MathFunc::SUB)
            } else if func == 0x24 {
                Some(MathFunc::AND)
            } else if func == 0x25 {
                Some(MathFunc::OR)
            } else {
                None
            };
            match f {
                Some(func) => Instruction::R(
                    RTypeInstruction {
                        func,
                        rs: ((w >> 21) & 0x1f) as u8,
                        rt: ((w >> 16) & 0x1f) as u8,
                        rd: ((w >> 11) & 0x1f) as u8,
                        shamt: ((w >> 6) & 0x1f) as u8,
                    },
                ),
                None => Instruction::Data(w),
            }
        } else if op == 0x04 || op == 0x08 || op == 0x23 || op == 0x2b {
            let opc = if op == 0x04 {
                OpCode::BEQZ
            } else if op == 0x08 {
                OpCode::ADDI
            } else if op == 0x23 {
                OpCode::LW
            } else {
                OpCode::SW
            };
            Instruction::I(
                ITypeInstruction {
                    op: opc,
                    rs: ((w >> 21) & 0x1f) as u8,
                    rt: ((w >> 16) & 0x1f) as u8,
                    imm: (w & 0xffff) as u16,
                },
            )
        } else if op == 0x13 || op == 0x3f {
            let opc = if op == 0x13 {
                OpCode::JALR
            } else {
                OpCode::HALT
            };
            Instruction::J(JTypeInstruction { op: opc, offset: w & 0x3ffffff })
        } else {
            Instruction::Data(w)
        }
    }

    /// The I-format fields, when this is an I-format instruction.
    pub fn as_i(&self) -> (r: Option<ITypeInstruction>)
        ensures
            match *self {
                Instruction::I(i) => r == Some(i),
                _ => r is None,
            },
    {
        match self {
            Instruction::I(i) => Some(*i),
            _ => None,
        }
    }

    /// The R-format fields, when this is an R-format instruction.
    pub fn as_r(&self) -> (r: Option<RTypeInstruction>)
        ensures
            match *self {
                Instruction::R(x) => r == Some(x),
                _ => r is None,
            },
    {
        match self {
            Instruction::R(x) => Some(*x),
            _ => None,
        }
    }

    /// The J-format fields, when this is a J-format instruction.
    pub fn as_j(&self) -> (r: Option<JTypeInstruction>)
        ensures
            match *self {
                Instruction::J(j) => r == Some(j),
                _ => r is None,
            },
    {
        match self {
            Instruction::J(j) => Some(*j),
            _ => None,
        }
    }

    /// A raw data line assembles to its literal word.
    pub fn fill(imm: u32) -> (r: u32)
        ensures
            r == imm,
    {
        imm
    }

    pub fn jalr(offset: i16) -> (r: Instruction)
        ensures
            r == Instruction::J(JTypeInstruction { op: OpCode::JALR, offset: sext16(offset as u16) & 0x3ffffff }),
            r.wf(),
    {
        Instruction::J(JTypeInstruction::jalr(offset))
    }

    pub fn halt() -> (r: Instruction)
        ensures
            r == Instruction::J(JTypeInstruction { op: OpCode::HALT, offset: 0 }),
            r.wf(),
    {
        Instruction::J(JTypeInstruction::halt())
    }

    /// The no-op bubble: `MATH ADD r0, r0, r0`.
    pub fn nop() -> (r: Instruction)
        ensures
            r == Self::spec_nop(),
            r.wf(),
    {
        Instruction::R(RTypeInstruction::nop())
    }

    pub open spec fn spec_nop() -> Instruction {
        Instruction::R(RTypeInstruction::spec_nop())
    }

    pub fn math(func: MathFunc, args: (u8, u8, u8)) -> (r: Instruction)
        requires
            args.0 < 32,
            args.1 < 32,
            args.2 < 32,
        ensures
            r == Instruction::R(
                RTypeInstruction { func, rs: args.1, rt: args.2, rd: args.0, shamt: 0 },
            ),
            r.wf(),
    {
        Instruction::R(RTypeInstruction::math(func, args))
    }

    /// An I-format word with `(rt, rs, imm)`.
    pub fn i_type(op: OpCode, args: (u8, u8, i16)) -> (r: Instruction)
        requires
            is_i_op(op),
            args.0 < 32,
            args.1 < 32,
        ensures
            r == Instruction::I(
                ITypeInstruction { op, rs: args.1, rt: args.0, imm: args.2 as u16 },
            ),
            r.wf(),
    {
        Instruction::I(ITypeInstruction { op, rs: args.1, rt: args.0, imm: args.2 as u16 })
    }
}

/// Encoding inverts decoding: every 32-bit word is reproduced exactly by
/// re-encoding its decoded instruction, and the decoded instruction is
/// well formed.
pub proof fn lemma_encode_decode(w: u32)
    ensures
        decode_word(w).wf(),
        decode_word(w).spec_word() == w,
{
    lemma_word_field_bounds(w);
    let op = word_op(w);
    if op == 0x00 {
        if func_of_bits(word_func(w)) is Some {
            lemma_recompose_r(w);
        }
    } else if op == 0x04 || op == 0x08 || op == 0x23 || op == 0x2b {
        lemma_recompose_i(w);
    } else if op == 0x13 || op == 0x3f {
        lemma_recompose_j(w);
    }
}

/// For every function in {ADD, SLL, SRL, SUB, AND, OR} and registers in
/// [0, 31], decoding the encoded R-format word returns the same fields.
pub proof fn lemma_math_round_trip(func: MathFunc, rd: u8, rs: u8, rt: u8)
    requires
        rd < 32,
        rs < 32,
        rt < 32,
    ensures
        decode_word(
            Instruction::R(RTypeInstruction { func, rs, rt, rd, shamt: 0 }).spec_word(),
        ) == Instruction::R(RTypeInstruction { func, rs, rt, rd, shamt: 0 }),
{
    lemma_decode_encode(Instruction::R(RTypeInstruction { func, rs, rt, rd, shamt: 0 }));
}

/// For every opcode in {ADDI, LW, SW, BEQZ}, registers in [0, 31] and a
/// signed 16-bit immediate, decoding the encoded I-format word returns the
/// same fields, and the stored immediate sign-extends back to the original
/// signed value.
pub proof fn lemma_i_round_trip(op: OpCode, rt: u8, rs: u8, imm: i16)
    requires
        is_i_op(op),
        rt < 32,
        rs < 32,
    ensures
        decode_word(
            Instruction::I(ITypeInstruction { op, rs, rt, imm: imm as u16 }).spec_word(),
        ) == Instruction::I(ITypeInstruction { op, rs, rt, imm: imm as u16 }),
        imm_sval(imm as u16) == imm,
{
    lemma_decode_encode(Instruction::I(ITypeInstruction { op, rs, rt, imm: imm as u16 }));
    assert(imm_sval(#[verifier::truncate] (imm as u16)) == imm) by (bit_vector);
}

} // verus!
