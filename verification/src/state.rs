//! Machine state for the pipelined simulator: register file, the two
//! word-addressed memories, and the five pipeline latches, all reset to
//! NOP/zero and replaced wholesale once per cycle.

use vstd::prelude::*;

use crate::instr::{decode_word, Instruction};
use crate::text::{hex8_val, hex_line_ok, parse_hex_line};
use crate::assembler::byte_lines;

verus! {

/// A machine-image line that is not eight hex digits, keyed to its
/// zero-based line number.
#[derive(Clone, Copy, Debug, PartialEq, Eq, Structural)]
pub struct LoadError {
    pub line: usize,
}

/// Every image line is eight hex digits.
pub open spec fn image_ok(lines: Seq<Seq<u8>>) -> bool {
    forall|i: int| 0 <= i < lines.len() ==> hex_line_ok(#[trigger] lines[i])
}

/// Reads a machine image: one 32-bit word per line, or the first bad line.
pub fn load_words(lines: &Vec<Vec<u8>>) -> (r: Result<Vec<u32>, LoadError>)
    ensures
        match r {
            Ok(words) => {
                &&& image_ok(byte_lines(lines@))
                &&& words@.len() == lines@.len()
                &&& forall|i: int|
                    0 <= i < lines@.len() ==> #[trigger] words@[i] == hex8_val(lines@[i]@)
            },
            Err(e) => {
                &&& e.line < lines@.len()
                &&& !hex_line_ok(lines@[e.line as int]@)
            },
        },
{
    let mut words: Vec<u32> = Vec::new();
    let mut i: usize = 0;
    while i < lines.len()
        invariant
            i <= lines@.len(),
            words@.len() == i,
            forall|j: int| 0 <= j < i ==> hex_line_ok(#[trigger] lines@[j]@),
            forall|j: int| 0 <= j < i ==> #[trigger] words@[j] == hex8_val(lines@[j]@),
        decreases lines@.len() - i,
    {
        match parse_hex_line(&lines[i]) {
            None => {
                return Err(LoadError { line: i });
            },
            Some(w) => {
                words.push(w);
            },
        }
        i = i + 1;
    }
    proof {
        assert forall|j: int| 0 <= j < lines@.len() implies hex_line_ok(
            #[trigger] byte_lines(lines@)[j],
        ) by {
            assert(byte_lines(lines@)[j] == lines@[j]@);
        }
    }
    Ok(words)
}

// ---------------------------------------------------------------------------
// Latches.
// ---------------------------------------------------------------------------

/// IF/ID: the fetched instruction and the address after it.
#[derive(Clone, Copy, Debug, PartialEq, Eq, Structural)]
pub struct FetchDecode {
    pub instr: Instruction,
    pub pc_next: u32,
}

impl FetchDecode {
    pub open spec fn spec_nop() -> FetchDecode {
        FetchDecode { instr: Instruction::spec_nop(), pc_next: 0 }
    }

    pub fn nop() -> (r: FetchDecode)
        ensures
            r == Self::spec_nop(),
    {
        FetchDecode { instr: Instruction::nop(), pc_next: 0 }
    }
}

/// ID/EX: the decoded instruction, the two register reads and the
/// sign-extended immediate.
#[derive(Clone, Copy, Debug, PartialEq, Eq, Structural)]
pub struct DecodeExecute {
    pub instr: Instruction,
    pub pc_next: u32,
    pub read_reg_a: u32,
    pub read_reg_b: u32,
    /// The sign-extended immediate field, as unsigned bits.
    pub offset: u32,
}

impl DecodeExecute {
    /// The bubble: a NOP with the NOP word's own immediate field (its low
    /// 16 bits hold the ADD function code, 32) sign-extended into `offset`.
    pub open spec fn spec_nop() -> DecodeExecute {
        DecodeExecute {
            instr: Instruction::spec_nop(),
            pc_next: 0,
            read_reg_a: 0,
            read_reg_b: 0,
            offset: 32,
        }
    }

    pub fn nop() -> (r: DecodeExecute)
        ensures
            r == Self::spec_nop(),
    {
        DecodeExecute {
            instr: Instruction::nop(),
            pc_next: 0,
            read_reg_a: 0,
            read_reg_b: 0,
            offset: 32,
        }
    }
}

/// EX/MEM: the ALU result and the (possibly forwarded) store operand.
#[derive(Clone, Copy, Debug, PartialEq, Eq, Structural)]
pub struct ExecuteMemory {
    pub instr: Instruction,
    pub alu_result: u32,
    pub read_reg: u32,
}

impl ExecuteMemory {
    pub open spec fn spec_nop() -> ExecuteMemory {
        ExecuteMemory { instr: Instruction::spec_nop(), alu_result: 0, read_reg: 0 }
    }

    pub fn nop() -> (r: ExecuteMemory)
        ensures
            r == Self::spec_nop(),
    {
        ExecuteMemory { instr: Instruction::nop(), alu_result: 0, read_reg: 0 }
    }
}

/// MEM/WB: the value headed for the register file.
#[derive(Clone, Copy, Debug, PartialEq, Eq, Structural)]
pub struct MemoryWrite {
    pub instr: Instruction,
    pub write_data: u32,
}

impl MemoryWrite {
    pub open spec fn spec_nop() -> MemoryWrite {
        MemoryWrite { instr: Instruction::spec_nop(), write_data: 0 }
    }

    pub fn nop() -> (r: MemoryWrite)
        ensures
            r == Self::spec_nop(),
    {
        MemoryWrite { instr: Instruction::nop(), write_data: 0 }
    }
}

/// WB/END: one stage older than MEM/WB, kept for store-data forwarding.
pub type WriteEnd = MemoryWrite;

// ---------------------------------------------------------------------------
// The whole machine.
// ---------------------------------------------------------------------------

/// The mathematical model of the machine: the same fields with the memories
/// and register file as sequences.
pub struct StateModel {
    pub imem: Seq<Instruction>,
    pub dmem: Seq<u32>,
    pub regs: Seq<u32>,
    pub pc: u32,
    pub count: u64,
    pub fet_dec: FetchDecode,
    pub dec_exc: DecodeExecute,
    pub exc_mem: ExecuteMemory,
    pub mem_wrt: MemoryWrite,
    pub wrt_end: WriteEnd,
}

impl StateModel {
    /// The machine invariant: 32 registers with `r0` zero, and every
    /// instruction in flight or in memory structurally well formed.
    pub open spec fn wf(self) -> bool {
        &&& self.regs.len() == 32
        &&& self.regs[0] == 0
        &&& self.fet_dec.instr.wf()
        &&& self.dec_exc.instr.wf()
        &&& self.exc_mem.instr.wf()
        &&& self.mem_wrt.instr.wf()
        &&& self.wrt_end.instr.wf()
        &&& forall|i: int| 0 <= i < self.imem.len() ==> (#[trigger] self.imem[i]).wf()
    }
}

/// The pipelined machine: memories, registers, program counter, cycle
/// counter, and the five latches.
pub struct State {
    pub inst_memory: Vec<Instruction>,
    pub data_memory: Vec<u32>,
    pub registers: Vec<u32>,
    pub program_counter: u32,
    pub instructions_count: u64,
    pub fet_dec: FetchDecode,
    pub dec_exc: DecodeExecute,
    pub exc_mem: ExecuteMemory,
    pub mem_wrt: MemoryWrite,
    pub wrt_end: WriteEnd,
}

impl View for State {
    type V = StateModel;

    open spec fn view(&self) -> StateModel {
        StateModel {
            imem: self.inst_memory@,
            dmem: self.data_memory@,
            regs: self.registers@,
            pc: self.program_counter,
            count: self.instructions_count,
            fet_dec: self.fet_dec,
            dec_exc: self.dec_exc,
            exc_mem: self.exc_mem,
            mem_wrt: self.mem_wrt,
            wrt_end: self.wrt_end,
        }
    }
}

/// A register file of 32 zeroed words.
pub fn zero_registers() -> (r: Vec<u32>)
    ensures
        r@.len() == 32,
        forall|i: int| 0 <= i < 32 ==> r@[i] == 0,
{
    let mut regs: Vec<u32> = Vec::new();
    let mut i: usize = 0;
    while i < 32
        invariant
            i <= 32,
            regs@.len() == i,
            forall|j: int| 0 <= j < i ==> regs@[j] == 0,
        decreases 32 - i,
    {
        regs.push(0);
        i = i + 1;
    }
    regs
}

impl State {
    /// Loads a machine image: each line's word goes to both memories (the
    /// instruction memory decoded), with registers, counters and latches at
    /// their reset values.
    pub fn with_memory(lines: &Vec<Vec<u8>>) -> (r: Result<State, LoadError>)
        ensures
            match r {
                Ok(s) => {
                    &&& image_ok(byte_lines(lines@))
                    &&& s@.wf()
                    &&& s@.dmem.len() == lines@.len()
                    &&& s@.imem.len() == lines@.len()
                    &&& forall|i: int|
                        0 <= i < lines@.len() ==> #[trigger] s@.dmem[i] == hex8_val(lines@[i]@)
                    &&& forall|i: int|
                        0 <= i < lines@.len() ==> #[trigger] s@.imem[i] == decode_word(
                            hex8_val(lines@[i]@),
                        )
                    &&& s@.pc == 0
                    &&& s@.count == 0
                    &&& forall|i: int| 0 <= i < 32 ==> s@.regs[i] == 0
                    &&& s@.fet_dec == FetchDecode::spec_nop()
                    &&& s@.dec_exc == DecodeExecute::spec_nop()
                    &&& s@.exc_mem == ExecuteMemory::spec_nop()
                    &&& s@.mem_wrt == MemoryWrite::spec_nop()
                    &&& s@.wrt_end == MemoryWrite::spec_nop()
                },
                Err(e) => {
                    &&& e.line < lines@.len()
                    &&& !hex_line_ok(lines@[e.line as int]@)
                },
            },
    {
        let words = match load_words(lines) {
            Ok(w) => w,
            Err(e) => {
                return Err(e);
            },
        };
        let mut imem: Vec<Instruction> = Vec::new();
        let mut i: usize = 0;
        while i < words.len()
            invariant
                i <= words@.len(),
                imem@.len() == i,
                forall|j: int|
                    0 <= j < i ==> #[trigger] imem@[j] == decode_word(words@[j]) && imem@[j].wf(),
            decreases words@.len() - i,
        {
            imem.push(Instruction::from_u32(words[i]));
            i = i + 1;
        }
        Ok(
            State {
                inst_memory: imem,
                data_memory: words,
                registers: zero_registers(),
                program_counter: 0,
                instructions_count: 0,
                fet_dec: FetchDecode::nop(),
                dec_exc: DecodeExecute::nop(),
                exc_mem: ExecuteMemory::nop(),
                mem_wrt: MemoryWrite::nop(),
                wrt_end: MemoryWrite::nop(),
            },
        )
    }
}

} // verus!
