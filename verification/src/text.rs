//! Textual forms: decimal and hexadecimal digits, the 8-digit machine-image
//! words, and the printable disassembly of an instruction. Everything works
//! on ASCII bytes.

use vstd::prelude::*;

use crate::instr::{imm_sval, Instruction, MathFunc, OpCode};

verus! {

// ---------------------------------------------------------------------------
// Decimal digits.
// ---------------------------------------------------------------------------

pub open spec fn is_dec_digit(b: u8) -> bool {
    48 <= b <= 57
}

/// The decimal digits of `n`, most significant first.
pub open spec fn dec_digits(n: nat) -> Seq<u8>
    decreases n,
{
    if n < 10 {
        seq![(48 + n) as u8]
    } else {
        dec_digits(n / 10) + seq![(48 + n % 10) as u8]
    }
}

/// The decimal form of a signed value: a minus sign, then the magnitude.
pub open spec fn dec_signed(i: int) -> Seq<u8> {
    if i < 0 {
        seq![45u8] + dec_digits((-i) as nat)
    } else {
        dec_digits(i as nat)
    }
}

/// Formats an unsigned 32-bit value in decimal.
pub fn u32_dec(n: u32) -> (r: Vec<u8>)
    ensures
        r@ == dec_digits(n as nat),
    decreases n,
{
    if n < 10 {
        let mut v: Vec<u8> = Vec::new();
        v.push(48 + n as u8);
        proof {
            assert(v@ =~= dec_digits(n as nat));
        }
        v
    } else {
        let mut v = u32_dec(n / 10);
        v.push(48 + (n % 10) as u8);
        proof {
            assert(v@ =~= dec_digits(n as nat));
        }
        v
    }
}

/// Formats a 32-bit value read as signed in decimal.
pub fn i32_dec(n: i32) -> (r: Vec<u8>)
    ensures
        r@ == dec_signed(n as int),
{
    if n < 0 {
        let mag: u32 = #[verifier::truncate] ((-(n as i64)) as u32);
        let mut v: Vec<u8> = Vec::new();
        v.push(45);
        let mut digits = u32_dec(mag);
        v.append(&mut digits);
        proof {
            assert(v@ =~= dec_signed(n as int));
        }
        v
    } else {
        let r = u32_dec(#[verifier::truncate] (n as u32));
        r
    }
}

// ---------------------------------------------------------------------------
// Decimal parsing.
// ---------------------------------------------------------------------------

/// The digit run of an optionally signed token: the token without its sign.
pub open spec fn dec_body(s: Seq<u8>) -> Seq<u8> {
    if s.len() > 0 && (s[0] == 43 || s[0] == 45) {
        s.skip(1)
    } else {
        s
    }
}

/// `s` is an optionally signed, non-empty run of decimal digits.
pub open spec fn is_dec_int(s: Seq<u8>) -> bool {
    s.len() > 0 && dec_body(s).len() > 0 && forall|i: int|
        0 <= i < dec_body(s).len() ==> is_dec_digit(#[trigger] dec_body(s)[i])
}

/// The magnitude of a digit run, most significant first.
pub open spec fn dec_mag(s: Seq<u8>) -> nat
    decreases s.len(),
{
    if s.len() == 0 {
        0
    } else {
        dec_mag(s.drop_last()) * 10 + (if s.last() >= 48 {
            (s.last() - 48) as nat
        } else {
            0
        })
    }
}

/// The signed value of an optionally signed digit run.
pub open spec fn dec_val(s: Seq<u8>) -> int {
    if s.len() > 0 && s[0] == 45 {
        -(dec_mag(dec_body(s)) as int)
    } else {
        dec_mag(dec_body(s)) as int
    }
}

/// How a token fares as a decimal integer.
pub enum ParsedNum {
    /// Not an optionally signed digit run at all.
    NotNum,
    /// A digit run whose magnitude exceeds every field this assembler fills.
    TooBig,
    /// The value.
    Val(i64),
}

/// Parses an optionally signed decimal integer, rejecting magnitudes above
/// 2^32 (no instruction field can hold them).
pub fn parse_dec(s: &Vec<u8>) -> (r: ParsedNum)
    ensures
        match r {
            ParsedNum::NotNum => !is_dec_int(s@),
            ParsedNum::TooBig => is_dec_int(s@) && (dec_val(s@) > 0xffff_ffff || dec_val(s@)
                < -0xffff_ffff),
            ParsedNum::Val(v) => is_dec_int(s@) && v == dec_val(s@) && -0xffff_ffff <= v
                <= 0xffff_ffff,
        },
{
    if s.len() == 0 {
        return ParsedNum::NotNum;
    }
    let first = s[0];
    let neg = first == 45;
    let start: usize = if first == 43 || first == 45 {
        1
    } else {
        0
    };
    proof {
        assert(dec_body(s@) =~= s@.skip(start as int));
    }
    if s.len() == start {
        return ParsedNum::NotNum;
    }
    let mut mag: u64 = 0;
    let mut i: usize = start;
    while i < s.len()
        invariant
            start <= i <= s@.len(),
            start <= 1,
            s@.len() > start,
            dec_body(s@) == s@.skip(start as int),
            forall|j: int| 0 <= j < i - start ==> is_dec_digit(#[trigger] dec_body(s@)[j]),
            mag == dec_mag(dec_body(s@).take(i - start)),
            mag <= 0xffff_ffff,
        decreases s@.len() - i,
    {
        let b = s[i];
        proof {
            assert(dec_body(s@)[i - start] == s@[i as int]);
        }
        if b < 48 || b > 57 {
            assert(!is_dec_digit(dec_body(s@)[i - start]));
            return ParsedNum::NotNum;
        }
        let d = (b - 48) as u64;
        let next = mag * 10 + d;
        proof {
            assert(dec_body(s@).take(i - start + 1).drop_last() =~= dec_body(s@).take(i - start));
            assert(dec_body(s@).take(i - start + 1).last() == dec_body(s@)[i - start]);
        }
        if next > 0xffff_ffff {
            // Every further digit only grows the magnitude.
            let mut k = i + 1;
            while k < s.len()
                invariant
                    i < k <= s@.len(),
                    start <= i,
                    start <= 1,
                    dec_body(s@) == s@.skip(start as int),
                    forall|j: int| 0 <= j < k - start ==> is_dec_digit(#[trigger] dec_body(s@)[j]),
                    dec_mag(dec_body(s@).take(k - start)) > 0xffff_ffff,
                decreases s@.len() - k,
            {
                let b2 = s[k];
                proof {
                    assert(dec_body(s@)[k - start] == s@[k as int]);
                }
                if b2 < 48 || b2 > 57 {
                    assert(!is_dec_digit(dec_body(s@)[k - start]));
                    return ParsedNum::NotNum;
                }
                proof {
                    assert(dec_body(s@).take(k - start + 1).drop_last() =~= dec_body(s@).take(
                        k - start,
                    ));
                    assert(dec_body(s@).take(k - start + 1).last() == dec_body(s@)[k - start]);
                }
                k = k + 1;
            }
            proof {
                assert(dec_body(s@).take(k - start) =~= dec_body(s@));
                assert(dec_mag(dec_body(s@)) > 0xffff_ffff);
            }
            return ParsedNum::TooBig;
        }
        mag = next;
        i = i + 1;
    }
    proof {
        assert(dec_body(s@).take(i - start) =~= dec_body(s@));
    }
    let v: i64 = if neg {
        -(mag as i64)
    } else {
        mag as i64
    };
    ParsedNum::Val(v)
}

// ---------------------------------------------------------------------------
// Hexadecimal image words.
// ---------------------------------------------------------------------------

pub open spec fn is_hex_digit(b: u8) -> bool {
    (48 <= b <= 57) || (97 <= b <= 102) || (65 <= b <= 70)
}

/// The numeric value of a hex digit, either case.
pub open spec fn hex_val(b: u8) -> u32 {
    if 48 <= b <= 57 {
        (b - 48) as u32
    } else if 97 <= b <= 102 {
        (b - 87) as u32
    } else if 65 <= b <= 70 {
        (b - 55) as u32
    } else {
        0
    }
}

/// The lowercase hex digit of a nibble.
pub open spec fn hex_digit(n: u32) -> u8 {
    if n < 10 {
        (48 + n) as u8
    } else {
        (87 + n) as u8
    }
}

/// The 8-digit lowercase hex form of a word.
pub open spec fn hex8(w: u32) -> Seq<u8> {
    seq![
        hex_digit((w >> 28) & 0xf),
        hex_digit((w >> 24) & 0xf),
        hex_digit((w >> 20) & 0xf),
        hex_digit((w >> 16) & 0xf),
        hex_digit((w >> 12) & 0xf),
        hex_digit((w >> 8) & 0xf),
        hex_digit((w >> 4) & 0xf),
        hex_digit(w & 0xf),
    ]
}

/// `s` is exactly eight hex digits.
pub open spec fn hex_line_ok(s: Seq<u8>) -> bool {
    s.len() == 8 && forall|i: int| 0 <= i < 8 ==> is_hex_digit(#[trigger] s[i])
}

/// The word held by eight hex digits.
pub open spec fn hex8_val(s: Seq<u8>) -> u32
    recommends
        s.len() == 8,
{
    (hex_val(s[0]) << 28) | (hex_val(s[1]) << 24) | (hex_val(s[2]) << 20) | (hex_val(s[3]) << 16)
        | (hex_val(s[4]) << 12) | (hex_val(s[5]) << 8) | (hex_val(s[6]) << 4) | hex_val(s[7])
}

proof fn lemma_nibble_bounds(w: u32)
    by (bit_vector)
    ensures
        (w >> 28) & 0xf < 16,
        (w >> 24) & 0xf < 16,
        (w >> 20) & 0xf < 16,
        (w >> 16) & 0xf < 16,
        (w >> 12) & 0xf < 16,
        (w >> 8) & 0xf < 16,
        (w >> 4) & 0xf < 16,
        w & 0xf < 16,
{
}

proof fn lemma_nibble_recompose(w: u32)
    by (bit_vector)
    ensures
        (((w >> 28) & 0xf) << 28) | (((w >> 24) & 0xf) << 24) | (((w >> 20) & 0xf) << 20) | (((w
            >> 16) & 0xf) << 16) | (((w >> 12) & 0xf) << 12) | (((w >> 8) & 0xf) << 8) | (((w >> 4)
            & 0xf) << 4) | (w & 0xf) == w,
{
}

/// Formatting a word gives eight lowercase hex digits that read back as the
/// same word.
pub proof fn lemma_hex8_round_trip(w: u32)
    ensures
        hex_line_ok(hex8(w)),
        hex8_val(hex8(w)) == w,
{
    lemma_nibble_bounds(w);
    lemma_nibble_recompose(w);
}

/// Formats a word as its 8-digit lowercase hex machine-image line.
pub fn word_to_hex(w: u32) -> (r: Vec<u8>)
    ensures
        r@ == hex8(w),
        hex_line_ok(r@),
        hex8_val(r@) == w,
{
    proof {
        lemma_nibble_bounds(w);
        lemma_hex8_round_trip(w);
    }
    let mut v: Vec<u8> = Vec::new();
    v.push(hex_digit_exec((w >> 28) & 0xf));
    v.push(hex_digit_exec((w >> 24) & 0xf));
    v.push(hex_digit_exec((w >> 20) & 0xf));
    v.push(hex_digit_exec((w >> 16) & 0xf));
    v.push(hex_digit_exec((w >> 12) & 0xf));
    v.push(hex_digit_exec((w >> 8) & 0xf));
    v.push(hex_digit_exec((w >> 4) & 0xf));
    v.push(hex_digit_exec(w & 0xf));
    proof {
        assert(v@ =~= hex8(w));
    }
    v
}

fn hex_digit_exec(n: u32) -> (r: u8)
    requires
        n < 16,
    ensures
        r == hex_digit(n),
{
    if n < 10 {
        48 + n as u8
    } else {
        87 + n as u8
    }
}

/// Reads one machine-image line: exactly eight hex digits, either case.
pub fn parse_hex_line(s: &Vec<u8>) -> (r: Option<u32>)
    ensures
        match r {
            Some(w) => hex_line_ok(s@) && w == hex8_val(s@),
            None => !hex_line_ok(s@),
        },
{
    if s.len() != 8 {
        return None;
    }
    let mut i: usize = 0;
    while i < 8
        invariant
            i <= 8,
            s@.len() == 8,
            forall|j: int| 0 <= j < i ==> is_hex_digit(#[trigger] s@[j]),
        decreases 8 - i,
    {
        let b = s[i];
        let ok = (48 <= b && b <= 57) || (97 <= b && b <= 102) || (65 <= b && b <= 70);
        if !ok {
            assert(!is_hex_digit(s@[i as int]));
            return None;
        }
        i = i + 1;
    }
    let w = (hex_val_exec(s[0]) << 28) | (hex_val_exec(s[1]) << 24) | (hex_val_exec(s[2]) << 20) | (
    hex_val_exec(s[3]) << 16) | (hex_val_exec(s[4]) << 12) | (hex_val_exec(s[5]) << 8) | (
    hex_val_exec(s[6]) << 4) | hex_val_exec(s[7]);
    Some(w)
}

fn hex_val_exec(b: u8) -> (r: u32)
    requires
        is_hex_digit(b),
    ensures
        r == hex_val(b),
{
    if 48 <= b && b <= 57 {
        (b - 48) as u32
    } else if 97 <= b && b <= 102 {
        (b - 87) as u32
    } else {
        (b - 55) as u32
    }
}

// ---------------------------------------------------------------------------
// Disassembly.
// ---------------------------------------------------------------------------

/// The lowercase mnemonic of a `MATH` function.
pub open spec fn func_name(f: MathFunc) -> Seq<u8> {
    match f {
        MathFunc::ADD => seq![97u8, 100u8, 100u8],
        MathFunc::SLL => seq![115u8, 108u8, 108u8],
        MathFunc::SRL => seq![115u8, 114u8, 108u8],
        MathFunc::SUB => seq![115u8, 117u8, 98u8],
        MathFunc::AND => seq![97u8, 110u8, 100u8],
        MathFunc::OR => seq![111u8, 114u8],
    }
}

/// The lowercase mnemonic of an opcode; `MATH` words print their function
/// instead.
pub open spec fn op_name(op: OpCode) -> Seq<u8> {
    match op {
        OpCode::LW => seq![108u8, 119u8],
        OpCode::SW => seq![115u8, 119u8],
        OpCode::ADDI => seq![97u8, 100u8, 100u8, 105u8],
        OpCode::MATH => seq![109u8, 97u8, 116u8, 104u8],
        OpCode::BEQZ => seq![98u8, 101u8, 113u8, 122u8],
        OpCode::JALR => seq![106u8, 97u8, 108u8, 114u8],
        OpCode::HALT => seq![104u8, 97u8, 108u8, 116u8],
    }
}

/// The printable form of an instruction: `<func> <rd> <rs> <rt>` for
/// R-format, `<op> <rt> <rs> <sext(imm)>` for I-format, the opcode (with
/// offset for `JALR`) for J-format, `data: <word>` for data, and `nop` for
/// the canonical no-op word.
pub open spec fn disasm_spec(i: Instruction) -> Seq<u8> {
    if i == Instruction::spec_nop() {
        seq![110u8, 111u8, 112u8]
    } else {
        match i {
            Instruction::R(r) => func_name(r.func) + seq![32u8] + dec_digits(r.rd as nat)
                + seq![32u8] + dec_digits(r.rs as nat) + seq![32u8] + dec_digits(r.rt as nat),
            Instruction::I(it) => op_name(it.op) + seq![32u8] + dec_digits(it.rt as nat)
                + seq![32u8] + dec_digits(it.rs as nat) + seq![32u8] + dec_signed(imm_sval(it.imm)),
            Instruction::J(j) => if j.op == OpCode::JALR {
                op_name(j.op) + seq![32u8] + dec_digits(j.offset as nat)
            } else {
                op_name(j.op)
            },
            Instruction::Data(w) => seq![100u8, 97u8, 116u8, 97u8, 58u8, 32u8] + dec_digits(w as nat),
        }
    }
}

fn func_mnemonic(f: MathFunc) -> (r: Vec<u8>)
    ensures
        r@ == func_name(f),
{
    let mut v: Vec<u8> = Vec::new();
    match f {
        MathFunc::ADD => {
            v.push(97u8);
            v.push(100u8);
            v.push(100u8);
        },
        MathFunc::SLL => {
            v.push(115u8);
            v.push(108u8);
            v.push(108u8);
        },
        MathFunc::SRL => {
            v.push(115u8);
            v.push(114u8);
            v.push(108u8);
        },
        MathFunc::SUB => {
            v.push(115u8);
            v.push(117u8);
            v.push(98u8);
        },
        MathFunc::AND => {
            v.push(97u8);
            v.push(110u8);
            v.push(100u8);
        },
        MathFunc::OR => {
            v.push(111u8);
            v.push(114u8);
        },
    }
    proof {
        assert(v@ =~= func_name(f));
    }
    v
}

fn op_mnemonic(op: OpCode) -> (r: Vec<u8>)
    ensures
        r@ == op_name(op),
{
    let mut v: Vec<u8> = Vec::new();
    match op {
        OpCode::LW => {
            v.push(108u8);
            v.push(119u8);
        },
        OpCode::SW => {
            v.push(115u8);
            v.push(119u8);
        },
        OpCode::ADDI => {
            v.push(97u8);
            v.push(100u8);
            v.push(100u8);
            v.push(105u8);
        },
        OpCode::MATH => {
            v.push(109u8);
            v.push(97u8);
            v.push(116u8);
            v.push(104u8);
        },
        OpCode::BEQZ => {
            v.push(98u8);
            v.push(101u8);
            v.push(113u8);
            v.push(122u8);
        },
        OpCode::JALR => {
            v.push(106u8);
            v.push(97u8);
            v.push(108u8);
            v.push(114u8);
        },
        OpCode::HALT => {
            v.push(104u8);
            v.push(97u8);
            v.push(108u8);
            v.push(116u8);
        },
    }
    proof {
        assert(v@ =~= op_name(op));
    }
    v
}

/// Renders the printable form of an instruction.
pub fn disasm(i: &Instruction) -> (r: Vec<u8>)
    ensures
        r@ == disasm_spec(*i),
{
    if *i == Instruction::nop() {
        let mut v: Vec<u8> = Vec::new();
        v.push(110u8);
        v.push(111u8);
        v.push(112u8);
        proof {
            assert(v@ =~= disasm_spec(*i));
        }
        return v;
    }
    match i {
        Instruction::R(r) => {
            let mut v = func_mnemonic(r.func);
            v.push(32u8);
            let mut d = u32_dec(r.rd as u32);
            v.append(&mut d);
            v.push(32u8);
            let mut d = u32_dec(r.rs as u32);
            v.append(&mut d);
            v.push(32u8);
            let mut d = u32_dec(r.rt as u32);
            v.append(&mut d);
            proof {
                assert(v@ =~= disasm_spec(*i));
            }
            v
        },
        Instruction::I(it) => {
            let mut v = op_mnemonic(it.op);
            v.push(32u8);
            let mut d = u32_dec(it.rt as u32);
            v.append(&mut d);
            v.push(32u8);
            let mut d = u32_dec(it.rs as u32);
            v.append(&mut d);
            v.push(32u8);
            let mut d = i32_dec(it.imm_as_i32());
            v.append(&mut d);
            proof {
                assert(v@ =~= disasm_spec(*i));
            }
            v
        },
        Instruction::J(j) => {
            let mut v = op_mnemonic(j.op);
            if j.op.bits() == 0x13 {
                v.push(32u8);
                let mut d = u32_dec(j.offset);
                v.append(&mut d);
            }
            proof {
                assert(v@ =~= disasm_spec(*i));
            }
            v
        },
        Instruction::Data(w) => {
            let mut v: Vec<u8> = Vec::new();
            v.push(100u8);
            v.push(97u8);
            v.push(116u8);
            v.push(97u8);
            v.push(58u8);
            v.push(32u8);
            let mut d = u32_dec(*w);
            v.append(&mut d);
            proof {
                assert(v@ =~= disasm_spec(*i));
            }
            v
        },
    }
}

} // verus!
