//! The five-stage pipeline: fetch, decode, execute, memory, writeback.
//! Each cycle is a pure function of the previous cycle's state; stage
//! outputs are committed together at cycle end. Forwarding runs from
//! EX/MEM, MEM/WB and WB/END back into execute, a load-use hazard stalls
//! fetch for one cycle, and branches are predicted by their direction and
//! squashed on a mispredict.

use vstd::prelude::*;

use crate::instr::{
    imm_sval, math_eval, sext16, word_imm, word_rs, word_rt, Instruction, OpCode,
    lemma_word_field_bounds,
};
use crate::state::{
    DecodeExecute, ExecuteMemory, FetchDecode, MemoryWrite, State, StateModel, WriteEnd,
};

verus! {

/// A simulator failure at a given cycle.
#[derive(Clone, Copy, Debug, PartialEq, Eq, Structural)]
pub enum SimErrorKind {
    /// `JALR` reached execute; its semantics are reserved.
    Unimplemented,
    /// A data-memory access beyond the loaded image.
    Bounds,
}

#[derive(Clone, Copy, Debug, PartialEq, Eq, Structural)]
pub struct SimError {
    pub kind: SimErrorKind,
    pub cycle: u64,
}

/// Wrapping 32-bit addition.
pub open spec fn wadd(a: u32, b: u32) -> u32 {
    vstd::wrapping::u32_specs::wrapping_add(a, b)
}

/// A 32-bit value read as signed.
pub open spec fn s32(v: u32) -> int {
    if v < 0x8000_0000 {
        v as int
    } else {
        v - 0x1_0000_0000
    }
}

// ---------------------------------------------------------------------------
// Fetch.
// ---------------------------------------------------------------------------

/// Fetch: read the word at `pc` (a NOP past the end), advance to `pc + 4`,
/// and bias the program counter by the immediate when the instruction is a
/// backward (predicted-taken) `BEQZ`. The latch keeps the unbiased `pc + 4`.
pub open spec fn spec_fetch(pc: u32, imem: Seq<Instruction>) -> (u32, FetchDecode) {
    let idx = (pc / 4) as int;
    let instr = if idx < imem.len() {
        imem[idx]
    } else {
        Instruction::spec_nop()
    };
    let pc4 = wadd(pc, 4);
    let new_pc = match instr {
        Instruction::I(ii) => if ii.op == OpCode::BEQZ && imm_sval(ii.imm) < 0 {
            wadd(pc4, sext16(ii.imm))
        } else {
            pc4
        },
        _ => pc4,
    };
    (new_pc, FetchDecode { instr, pc_next: pc4 })
}

/// Reads the next instruction and performs static branch prediction.
pub fn fetch(program_counter: u32, inst_memory: &Vec<Instruction>) -> (r: (u32, FetchDecode))
    ensures
        r == spec_fetch(program_counter, inst_memory@),
{
    let idx = (program_counter / 4) as usize;
    let instr = if idx < inst_memory.len() {
        inst_memory[idx]
    } else {
        Instruction::nop()
    };
    let pc4 = program_counter.wrapping_add(4);
    let new_pc = match instr {
        Instruction::I(ii) => {
            if matches!(ii.op, OpCode::BEQZ) && ii.imm >= 0x8000 {
                pc4.wrapping_add(crate::instr::convert_num(ii.imm))
            } else {
                pc4
            }
        },
        _ => pc4,
    };
    (new_pc, FetchDecode { instr, pc_next: pc4 })
}

// ---------------------------------------------------------------------------
// Decode and the load-use interlock.
// ---------------------------------------------------------------------------

/// The load-use hazard: the instruction one stage ahead is a `LW` into a
/// register this instruction reads. `MATH` reads `rs` and `rt`; the
/// I-format opcodes read `rs`; J-format and data words read nothing.
pub open spec fn load_use_hazard(prev: Instruction, cur: Instruction) -> bool {
    match prev {
        Instruction::I(p) => p.op == OpCode::LW && (match cur {
            Instruction::R(r) => r.rs == p.rt || r.rt == p.rt,
            Instruction::I(c) => c.rs == p.rt,
            _ => false,
        }),
        _ => false,
    }
}

/// Decode: read both registers (by the word's `rs`/`rt` bit positions) and
/// sign-extend the immediate. On a load-use hazard, hold `pc` and IF/ID
/// and emit a bubble instead.
pub open spec fn spec_decode(s: StateModel) -> (Option<(u32, FetchDecode)>, DecodeExecute)
    recommends
        s.wf(),
{
    let instr = s.fet_dec.instr;
    let w = instr.spec_word();
    let de = DecodeExecute {
        instr,
        pc_next: s.fet_dec.pc_next,
        read_reg_a: s.regs[word_rs(w) as int],
        read_reg_b: s.regs[word_rt(w) as int],
        offset: sext16(word_imm(w) as u16),
    };
    if load_use_hazard(s.dec_exc.instr, instr) {
        (Some((s.pc, s.fet_dec)), DecodeExecute::spec_nop())
    } else {
        (None, de)
    }
}

/// Reads registers, stalling when a loaded value is not yet available.
pub fn decode(state: &State) -> (r: (Option<(u32, FetchDecode)>, DecodeExecute))
    requires
        state@.wf(),
    ensures
        r == spec_decode(state@),
{
    let instr = state.fet_dec.instr;
    let w = instr.as_u32();
    proof {
        lemma_word_field_bounds(w);
    }
    let rs = ((w >> 21) & 0x1f) as usize;
    let rt = ((w >> 16) & 0x1f) as usize;
    let de = DecodeExecute {
        instr,
        pc_next: state.fet_dec.pc_next,
        read_reg_a: state.registers[rs],
        read_reg_b: state.registers[rt],
        offset: crate::instr::convert_num((w & 0xffff) as u16),
    };
    let hazard = match state.dec_exc.instr {
        Instruction::I(p) => {
            matches!(p.op, OpCode::LW) && (match instr {
                Instruction::R(r) => r.rs == p.rt || r.rt == p.rt,
                Instruction::I(c) => c.rs == p.rt,
                _ => false,
            })
        },
        _ => false,
    };
    if hazard {
        (Some((state.program_counter, state.fet_dec)), DecodeExecute::nop())
    } else {
        (None, de)
    }
}

// ---------------------------------------------------------------------------
// Execute: forwarding, the ALU, and branch resolution.
// ---------------------------------------------------------------------------

/// What a pipelined instruction forwards to an operand numbered `r`: a
/// `MATH` result to its `rd`, a `LW`/`ADDI`/`BEQZ` payload to its `rt`,
/// never to `r0`, and nothing otherwise (data words forward nothing).
pub open spec fn fwd_source(j: Instruction, v: u32, r: u32) -> Option<u32> {
    match j {
        Instruction::R(rr) => if rr.rd != 0 && r == rr.rd as u32 {
            Some(v)
        } else {
            None
        },
        Instruction::I(ii) => if (ii.op == OpCode::LW || ii.op == OpCode::ADDI || ii.op
            == OpCode::BEQZ) && ii.rt != 0 && r == ii.rt as u32 {
            Some(v)
        } else {
            None
        },
        _ => None,
    }
}

/// The opcode an instruction executes as; data words execute as the NOP,
/// whose opcode is `MATH`.
pub open spec fn op_or_nop(i: Instruction) -> OpCode {
    match i {
        Instruction::R(_) => OpCode::MATH,
        Instruction::I(ii) => ii.op,
        Instruction::J(jj) => jj.op,
        Instruction::Data(_) => OpCode::MATH,
    }
}

/// Operand `a`: the forwarded value of the `rs` position, newest stage
/// first, else the latched register read.
pub open spec fn exec_operand_a(s: StateModel) -> u32 {
    let r1 = word_rs(s.dec_exc.instr.spec_word());
    let ex = fwd_source(s.exc_mem.instr, s.exc_mem.alu_result, r1);
    let mem = fwd_source(s.mem_wrt.instr, s.mem_wrt.write_data, r1);
    let wrt = fwd_source(s.wrt_end.instr, s.wrt_end.write_data, r1);
    if ex is Some {
        ex->0
    } else if mem is Some {
        mem->0
    } else if wrt is Some {
        wrt->0
    } else {
        s.dec_exc.read_reg_a
    }
}

/// Operand `b`: as operand `a` for the `rt` position, except that EX/MEM
/// forwarding is suppressed when the two opcodes match (write-after-write
/// order), and WB/END additionally forwards a store's data to `rt`.
pub open spec fn exec_operand_b(s: StateModel) -> u32 {
    let r2 = word_rt(s.dec_exc.instr.spec_word());
    let ex0 = fwd_source(s.exc_mem.instr, s.exc_mem.alu_result, r2);
    let ex = if op_or_nop(s.dec_exc.instr) == op_or_nop(s.exc_mem.instr) {
        None
    } else {
        ex0
    };
    let mem = fwd_source(s.mem_wrt.instr, s.mem_wrt.write_data, r2);
    let wrt0 = fwd_source(s.wrt_end.instr, s.wrt_end.write_data, r2);
    let wrt = match s.wrt_end.instr {
        Instruction::I(ii) => if ii.op == OpCode::SW {
            if r2 != 0 && r2 == ii.rt as u32 {
                Some(s.wrt_end.write_data)
            } else {
                None
            }
        } else {
            wrt0
        },
        _ => wrt0,
    };
    if ex is Some {
        ex->0
    } else if mem is Some {
        mem->0
    } else if wrt is Some {
        wrt->0
    } else {
        s.dec_exc.read_reg_b
    }
}

/// Branch resolution: a `BEQZ` in ID/EX whose prediction was wrong yields
/// the corrected program counter and NOP bubbles for IF/ID and ID/EX. A
/// forward branch mispredicts when taken (`a == 0`), a backward branch
/// when not taken; the corrected `pc` is the branch target for the former
/// and the fall-through `pc_next` for the latter.
pub open spec fn exec_squash(s: StateModel) -> Option<(u32, FetchDecode, DecodeExecute)> {
    match s.dec_exc.instr {
        Instruction::I(ii) => if ii.op == OpCode::BEQZ {
            let a = exec_operand_a(s);
            let off = s32(s.dec_exc.offset);
            if off > 0 && a == 0 {
                Some(
                    (
                        wadd(s.dec_exc.pc_next, s.dec_exc.offset),
                        FetchDecode::spec_nop(),
                        DecodeExecute::spec_nop(),
                    ),
                )
            } else if off < 0 && a != 0 {
                Some((s.dec_exc.pc_next, FetchDecode::spec_nop(), DecodeExecute::spec_nop()))
            } else {
                None
            }
        } else {
            None
        },
        _ => None,
    }
}

/// Execute: resolve operands, run the ALU (`MATH` by its function; loads,
/// stores and `ADDI` an address/sum `a + sext(imm)`; `BEQZ` the branch
/// target `pc_next + sext(imm)`), latch the store/branch register, and
/// resolve mispredicts. Data words execute as NOPs; `JALR` fails.
pub open spec fn spec_execute(s: StateModel) -> Result<
    (Option<(u32, FetchDecode, DecodeExecute)>, ExecuteMemory),
    SimErrorKind,
>
    recommends
        s.wf(),
{
    let instr = s.dec_exc.instr;
    let a = exec_operand_a(s);
    let b = exec_operand_b(s);
    match instr {
        Instruction::R(rr) => Ok(
            (
                exec_squash(s),
                ExecuteMemory { instr, alu_result: math_eval(rr.func, a, b), read_reg: b },
            ),
        ),
        Instruction::I(ii) => {
            if ii.op == OpCode::LW {
                Ok(
                    (
                        exec_squash(s),
                        ExecuteMemory {
                            instr,
                            alu_result: wadd(a, sext16(ii.imm)),
                            read_reg: s.regs[ii.rt as int],
                        },
                    ),
                )
            } else if ii.op == OpCode::SW {
                Ok(
                    (
                        exec_squash(s),
                        ExecuteMemory { instr, alu_result: wadd(a, sext16(ii.imm)), read_reg: b },
                    ),
                )
            } else if ii.op == OpCode::ADDI {
                Ok(
                    (
                        exec_squash(s),
                        ExecuteMemory {
                            instr,
                            alu_result: wadd(a, sext16(ii.imm)),
                            read_reg: s.dec_exc.read_reg_b,
                        },
                    ),
                )
            } else {
                // BEQZ
                Ok(
                    (
                        exec_squash(s),
                        ExecuteMemory {
                            instr,
                            alu_result: wadd(s.dec_exc.pc_next, sext16(ii.imm)),
                            read_reg: s.regs[ii.rt as int],
                        },
                    ),
                )
            }
        },
        Instruction::J(jj) => {
            if jj.op == OpCode::JALR {
                Err(SimErrorKind::Unimplemented)
            } else {
                Ok((exec_squash(s), ExecuteMemory { instr, alu_result: 0, read_reg: 0 }))
            }
        },
        Instruction::Data(_) => Ok(
            (exec_squash(s), ExecuteMemory { instr, alu_result: 0, read_reg: 0 }),
        ),
    }
}

/// The interlock, forward direction: on a load-use hazard, decode holds
/// the program counter and IF/ID and turns ID/EX into a bubble.
pub proof fn lemma_load_use_stalls(s: StateModel)
    requires
        load_use_hazard(s.dec_exc.instr, s.fet_dec.instr),
    ensures
        spec_decode(s) == (Some((s.pc, s.fet_dec)), DecodeExecute::spec_nop()),
{
}

/// The interlock, backward direction: without a hazard, decode never
/// stalls.
pub proof fn lemma_no_hazard_no_stall(s: StateModel)
    requires
        !load_use_hazard(s.dec_exc.instr, s.fet_dec.instr),
    ensures
        spec_decode(s).0 is None,
{
}

/// A `MATH` instruction one stage ahead never stalls its successor: only a
/// load does.
pub proof fn lemma_math_never_stalls(prev: Instruction, cur: Instruction)
    requires
        prev matches Instruction::R(_),
    ensures
        !load_use_hazard(prev, cur),
{
}

/// One-cycle forwarding: when the instruction in EX/MEM is a `MATH` op
/// that writes the register this instruction reads as operand `a`, execute
/// sees the EX/MEM ALU result, not the stale register file.
pub proof fn lemma_alu_result_forwarded(s: StateModel)
    requires
        s.exc_mem.instr matches Instruction::R(rr) && rr.rd != 0 && word_rs(
            s.dec_exc.instr.spec_word(),
        ) == rr.rd,
    ensures
        exec_operand_a(s) == s.exc_mem.alu_result,
{
}

/// A backward `BEQZ` (negative offset) that is taken (`a == 0`) was
/// predicted correctly: execute squashes nothing.
pub proof fn lemma_backward_taken_no_squash(s: StateModel)
    requires
        s.dec_exc.instr matches Instruction::I(ii) && ii.op == OpCode::BEQZ,
        s32(s.dec_exc.offset) < 0,
        exec_operand_a(s) == 0,
    ensures
        exec_squash(s) is None,
{
}

/// A forward `BEQZ` (non-negative offset) that is not taken (`a != 0`) was
/// predicted correctly: execute squashes nothing.
pub proof fn lemma_forward_not_taken_no_squash(s: StateModel)
    requires
        s.dec_exc.instr matches Instruction::I(ii) && ii.op == OpCode::BEQZ,
        s32(s.dec_exc.offset) >= 0,
        exec_operand_a(s) != 0,
    ensures
        exec_squash(s) is None,
{
}

/// A backward `BEQZ` that is not taken mispredicts: the next state's IF/ID
/// and ID/EX both become bubbles and the program counter falls back to the
/// instruction after the branch.
pub proof fn lemma_backward_not_taken_squashes(s: StateModel)
    requires
        s.dec_exc.instr matches Instruction::I(ii) && ii.op == OpCode::BEQZ,
        s32(s.dec_exc.offset) < 0,
        exec_operand_a(s) != 0,
    ensures
        exec_squash(s) == Some(
            (s.dec_exc.pc_next, FetchDecode::spec_nop(), DecodeExecute::spec_nop()),
        ),
{
}

/// A forward `BEQZ` that is taken mispredicts: both younger latches become
/// bubbles and the program counter moves to the branch target.
pub proof fn lemma_forward_taken_squashes(s: StateModel)
    requires
        s.dec_exc.instr matches Instruction::I(ii) && ii.op == OpCode::BEQZ,
        s32(s.dec_exc.offset) > 0,
        exec_operand_a(s) == 0,
    ensures
        exec_squash(s) == Some(
            (
                wadd(s.dec_exc.pc_next, s.dec_exc.offset),
                FetchDecode::spec_nop(),
                DecodeExecute::spec_nop(),
            ),
        ),
{
}

/// Forwarding from one older instruction into the two operand positions.
pub fn forward_to_exc(old_instr: Instruction, old_save: u32, r1: u32, r2: u32) -> (r: (
    Option<u32>,
    Option<u32>,
))
    ensures
        r.0 == fwd_source(old_instr, old_save, r1),
        r.1 == fwd_source(old_instr, old_save, r2),
{
    match old_instr {
        Instruction::R(rr) => {
            (
                if rr.rd != 0 && r1 == rr.rd as u32 {
                    Some(old_save)
                } else {
                    None
                },
                if rr.rd != 0 && r2 == rr.rd as u32 {
                    Some(old_save)
                } else {
                    None
                },
            )
        },
        Instruction::I(ii) => {
            let writes = matches!(ii.op, OpCode::LW | OpCode::ADDI | OpCode::BEQZ) && ii.rt != 0;
            (
                if writes && r1 == ii.rt as u32 {
                    Some(old_save)
                } else {
                    None
                },
                if writes && r2 == ii.rt as u32 {
                    Some(old_save)
                } else {
                    None
                },
            )
        },
        _ => (None, None),
    }
}

fn op_or_nop_exec(i: &Instruction) -> (r: OpCode)
    ensures
        r == op_or_nop(*i),
{
    match i {
        Instruction::R(_) => OpCode::MATH,
        Instruction::I(ii) => ii.op,
        Instruction::J(jj) => jj.op,
        Instruction::Data(_) => OpCode::MATH,
    }
}

/// Resolves operands with forwarding, runs the ALU, and squashes on a
/// mispredicted branch.
pub fn execute(state: &State) -> (r: Result<
    (Option<(u32, FetchDecode, DecodeExecute)>, ExecuteMemory),
    SimErrorKind,
>)
    requires
        state@.wf(),
    ensures
        r == spec_execute(state@),
{
    let instr = state.dec_exc.instr;
    let w = instr.as_u32();
    proof {
        lemma_word_field_bounds(w);
    }
    let r1 = (w >> 21) & 0x1f;
    let r2 = (w >> 16) & 0x1f;

    let (ex_a, ex_b0) = forward_to_exc(state.exc_mem.instr, state.exc_mem.alu_result, r1, r2);
    let ex_b = if op_or_nop_exec(&instr) == op_or_nop_exec(&state.exc_mem.instr) {
        None
    } else {
        ex_b0
    };
    let (mem_a, mem_b) = forward_to_exc(state.mem_wrt.instr, state.mem_wrt.write_data, r1, r2);
    let (wrt_a, wrt_b0) = forward_to_exc(state.wrt_end.instr, state.wrt_end.write_data, r1, r2);
    let wrt_b = match state.wrt_end.instr {
        Instruction::I(ii) => {
            if matches!(ii.op, OpCode::SW) {
                if r2 != 0 && r2 == ii.rt as u32 {
                    Some(state.wrt_end.write_data)
                } else {
                    None
                }
            } else {
                wrt_b0
            }
        },
        _ => wrt_b0,
    };

    let a = if let Some(v) = ex_a {
        v
    } else if let Some(v) = mem_a {
        v
    } else if let Some(v) = wrt_a {
        v
    } else {
        state.dec_exc.read_reg_a
    };
    let b = if let Some(v) = ex_b {
        v
    } else if let Some(v) = mem_b {
        v
    } else if let Some(v) = wrt_b {
        v
    } else {
        state.dec_exc.read_reg_b
    };

    // Branch resolution.
    let squash: Option<(u32, FetchDecode, DecodeExecute)> = match instr {
        Instruction::I(ii) => {
            if matches!(ii.op, OpCode::BEQZ) {
                let off_neg = state.dec_exc.offset >= 0x8000_0000;
                let off_zero = state.dec_exc.offset == 0;
                if !off_neg && !off_zero && a == 0 {
                    Some(
                        (
                            state.dec_exc.pc_next.wrapping_add(state.dec_exc.offset),
                            FetchDecode::nop(),
                            DecodeExecute::nop(),
                        ),
                    )
                } else if off_neg && a != 0 {
                    Some((state.dec_exc.pc_next, FetchDecode::nop(), DecodeExecute::nop()))
                } else {
                    None
                }
            } else {
                None
            }
        },
        _ => None,
    };

    match instr {
        Instruction::R(rr) => {
            let alu = rr.func.as_fn(a, b);
            Ok((squash, ExecuteMemory { instr, alu_result: alu, read_reg: b }))
        },
        Instruction::I(ii) => {
            let ext = crate::instr::convert_num(ii.imm);
            if matches!(ii.op, OpCode::LW) {
                Ok(
                    (
                        squash,
                        ExecuteMemory {
                            instr,
                            alu_result: a.wrapping_add(ext),
                            read_reg: state.registers[ii.rt as usize],
                        },
                    ),
                )
            } else if matches!(ii.op, OpCode::SW) {
                Ok((squash, ExecuteMemory { instr, alu_result: a.wrapping_add(ext), read_reg: b }))
            } else if matches!(ii.op, OpCode::ADDI) {
                Ok(
                    (
                        squash,
                        ExecuteMemory {
                            instr,
                            alu_result: a.wrapping_add(ext),
                            read_reg: state.dec_exc.read_reg_b,
                        },
                    ),
                )
            } else {
                Ok(
                    (
                        squash,
                        ExecuteMemory {
                            instr,
                            alu_result: state.dec_exc.pc_next.wrapping_add(ext),
                            read_reg: state.registers[ii.rt as usize],
                        },
                    ),
                )
            }
        },
        Instruction::J(jj) => {
            if matches!(jj.op, OpCode::JALR) {
                Err(SimErrorKind::Unimplemented)
            } else {
                Ok((squash, ExecuteMemory { instr, alu_result: 0, read_reg: 0 }))
            }
        },
        Instruction::Data(_) => Ok(
            (squash, ExecuteMemory { instr, alu_result: 0, read_reg: 0 }),
        ),
    }
}

// ---------------------------------------------------------------------------
// Memory.
// ---------------------------------------------------------------------------

/// Memory: a `LW` reads the word at `alu_result`, a `SW` writes its latched
/// register there; every other instruction passes `alu_result` through.
/// An address beyond the image is a bounds failure.
pub open spec fn spec_memory(l: ExecuteMemory, dmem: Seq<u32>) -> Result<
    (MemoryWrite, Seq<u32>),
    SimErrorKind,
> {
    match l.instr {
        Instruction::I(ii) => {
            if ii.op == OpCode::LW {
                let idx = (l.alu_result / 4) as int;
                if idx < dmem.len() {
                    Ok((MemoryWrite { instr: l.instr, write_data: dmem[idx] }, dmem))
                } else {
                    Err(SimErrorKind::Bounds)
                }
            } else if ii.op == OpCode::SW {
                let idx = (l.alu_result / 4) as int;
                if idx < dmem.len() {
                    Ok(
                        (
                            MemoryWrite { instr: l.instr, write_data: l.read_reg },
                            dmem.update(idx, l.read_reg),
                        ),
                    )
                } else {
                    Err(SimErrorKind::Bounds)
                }
            } else {
                Ok((MemoryWrite { instr: l.instr, write_data: l.alu_result }, dmem))
            }
        },
        Instruction::J(jj) => {
            if jj.op == OpCode::JALR {
                Err(SimErrorKind::Unimplemented)
            } else {
                Ok((MemoryWrite { instr: l.instr, write_data: l.alu_result }, dmem))
            }
        },
        _ => Ok((MemoryWrite { instr: l.instr, write_data: l.alu_result }, dmem)),
    }
}

/// Performs the store or load of the EX/MEM instruction.
pub fn memory(exc_mem: &ExecuteMemory, data_memory: &mut Vec<u32>) -> (r: Result<
    MemoryWrite,
    SimErrorKind,
>)
    ensures
        match r {
            Ok(mw) => {
                &&& spec_memory(*exc_mem, old(data_memory)@) == Ok::<_, SimErrorKind>(
                    (mw, final(data_memory)@),
                )
            },
            Err(k) => {
                &&& spec_memory(*exc_mem, old(data_memory)@) == Err::<
                    (MemoryWrite, Seq<u32>),
                    _,
                >(k)
                &&& final(data_memory)@ == old(data_memory)@
            },
        },
{
    match exc_mem.instr {
        Instruction::I(ii) => {
            if matches!(ii.op, OpCode::LW) {
                let idx = (exc_mem.alu_result / 4) as usize;
                if idx < data_memory.len() {
                    Ok(MemoryWrite { instr: exc_mem.instr, write_data: data_memory[idx] })
                } else {
                    Err(SimErrorKind::Bounds)
                }
            } else if matches!(ii.op, OpCode::SW) {
                let idx = (exc_mem.alu_result / 4) as usize;
                if idx < data_memory.len() {
                    data_memory.set(idx, exc_mem.read_reg);
                    Ok(MemoryWrite { instr: exc_mem.instr, write_data: exc_mem.read_reg })
                } else {
                    Err(SimErrorKind::Bounds)
                }
            } else {
                Ok(MemoryWrite { instr: exc_mem.instr, write_data: exc_mem.alu_result })
            }
        },
        Instruction::J(jj) => {
            if matches!(jj.op, OpCode::JALR) {
                Err(SimErrorKind::Unimplemented)
            } else {
                Ok(MemoryWrite { instr: exc_mem.instr, write_data: exc_mem.alu_result })
            }
        },
        _ => Ok(MemoryWrite { instr: exc_mem.instr, write_data: exc_mem.alu_result }),
    }
}

// ---------------------------------------------------------------------------
// Writeback.
// ---------------------------------------------------------------------------

/// Writeback: `LW` and `ADDI` retire into `rt`, `MATH` into `rd`; stores,
/// branches, `HALT` and data words write nothing; `r0` is restored to zero
/// afterwards. Returns whether the retiring instruction is `HALT`, the new
/// WB/END latch, and the new register file.
pub open spec fn spec_writeback(l: MemoryWrite, regs: Seq<u32>) -> Result<
    (bool, WriteEnd, Seq<u32>),
    SimErrorKind,
>
    recommends
        regs.len() == 32,
{
    match l.instr {
        Instruction::I(ii) => {
            if ii.op == OpCode::LW || ii.op == OpCode::ADDI {
                Ok((false, l, regs.update(ii.rt as int, l.write_data).update(0, 0)))
            } else {
                Ok((false, l, regs.update(0, 0)))
            }
        },
        Instruction::R(rr) => Ok(
            (false, l, regs.update(rr.rd as int, l.write_data).update(0, 0)),
        ),
        Instruction::J(jj) => {
            if jj.op == OpCode::JALR {
                Err(SimErrorKind::Unimplemented)
            } else {
                Ok((jj.op == OpCode::HALT, l, regs.update(0, 0)))
            }
        },
        Instruction::Data(_) => Ok((false, l, regs.update(0, 0))),
    }
}

/// Retires the MEM/WB instruction into the register file.
pub fn writeback(mem_wrt: &MemoryWrite, registers: &mut Vec<u32>) -> (r: Result<
    (bool, WriteEnd),
    SimErrorKind,
>)
    requires
        old(registers)@.len() == 32,
        mem_wrt.instr.wf(),
    ensures
        match r {
            Ok((halt, we)) => spec_writeback(*mem_wrt, old(registers)@) == Ok::<_, SimErrorKind>(
                (halt, we, final(registers)@),
            ),
            Err(k) => {
                &&& spec_writeback(*mem_wrt, old(registers)@) == Err::<
                    (bool, WriteEnd, Seq<u32>),
                    _,
                >(k)
                &&& final(registers)@ == old(registers)@
            },
        },
{
    match mem_wrt.instr {
        Instruction::I(ii) => {
            if matches!(ii.op, OpCode::LW | OpCode::ADDI) {
                registers.set(ii.rt as usize, mem_wrt.write_data);
            }
            registers.set(0, 0);
            Ok((false, *mem_wrt))
        },
        Instruction::R(rr) => {
            registers.set(rr.rd as usize, mem_wrt.write_data);
            registers.set(0, 0);
            Ok((false, *mem_wrt))
        },
        Instruction::J(jj) => {
            if matches!(jj.op, OpCode::JALR) {
                Err(SimErrorKind::Unimplemented)
            } else {
                registers.set(0, 0);
                Ok((matches!(jj.op, OpCode::HALT), *mem_wrt))
            }
        },
        Instruction::Data(_) => {
            registers.set(0, 0);
            Ok((false, *mem_wrt))
        },
    }
}

// ---------------------------------------------------------------------------
// One cycle, and whole runs.
// ---------------------------------------------------------------------------

/// One atomic cycle: every stage reads the previous state; their outputs
/// (with the stall and squash overrides, newest stage winning) are
/// committed together. Returns whether a `HALT` retired this cycle.
pub open spec fn spec_cycle(s: StateModel) -> Result<(bool, StateModel), SimErrorKind>
    recommends
        s.wf(),
{
    let (f_pc, f_fd) = spec_fetch(s.pc, s.imem);
    let (stall, de) = spec_decode(s);
    let (pc1, fd1) = if stall is Some {
        stall->0
    } else {
        (f_pc, f_fd)
    };
    match spec_execute(s) {
        Err(k) => Err(k),
        Ok((squash, em)) => {
            let (pc2, fd2, de2) = if squash is Some {
                squash->0
            } else {
                (pc1, fd1, de)
            };
            match spec_memory(s.exc_mem, s.dmem) {
                Err(k) => Err(k),
                Ok((mw, dmem2)) => match spec_writeback(s.mem_wrt, s.regs) {
                    Err(k) => Err(k),
                    Ok((halt, we, regs2)) => Ok(
                        (
                            halt,
                            StateModel {
                                imem: s.imem,
                                dmem: dmem2,
                                regs: regs2,
                                pc: pc2,
                                count: vstd::wrapping::u64_specs::wrapping_add(s.count, 1),
                                fet_dec: fd2,
                                dec_exc: de2,
                                exc_mem: em,
                                mem_wrt: mw,
                                wrt_end: we,
                            },
                        ),
                    ),
                },
            }
        },
    }
}

/// A cycle preserves the machine invariant, both memory sizes, and the
/// zero register.
pub proof fn lemma_cycle_preserves_wf(s: StateModel)
    requires
        s.wf(),
        spec_cycle(s) is Ok,
    ensures
        spec_cycle(s)->Ok_0.1.wf(),
        spec_cycle(s)->Ok_0.1.regs[0] == 0,
        spec_cycle(s)->Ok_0.1.imem == s.imem,
        spec_cycle(s)->Ok_0.1.dmem.len() == s.dmem.len(),
        spec_cycle(s)->Ok_0.1.count == vstd::wrapping::u64_specs::wrapping_add(s.count, 1),
{
}

/// Advances the machine by one cycle; `Ok((halt, next))` reports whether a
/// `HALT` retired.
pub fn cycle(state: State) -> (r: Result<(bool, State), SimError>)
    requires
        state@.wf(),
    ensures
        match r {
            Ok((halt, s2)) => {
                &&& spec_cycle(state@) == Ok::<_, SimErrorKind>((halt, s2@))
                &&& s2@.wf()
            },
            Err(e) => {
                &&& spec_cycle(state@) is Err
                &&& e.kind == spec_cycle(state@)->Err_0
                &&& e.cycle == state@.count
            },
        },
{
    let mut state = state;
    let (f_pc, f_fd) = fetch(state.program_counter, &state.inst_memory);
    let (stall, de) = decode(&state);
    let (pc1, fd1) = match stall {
        Some(x) => x,
        None => (f_pc, f_fd),
    };
    let exec_out = match execute(&state) {
        Err(k) => {
            return Err(SimError { kind: k, cycle: state.instructions_count });
        },
        Ok(x) => x,
    };
    let (squash, em) = exec_out;
    let (pc2, fd2, de2) = match squash {
        Some(x) => x,
        None => (pc1, fd1, de),
    };
    let em_latch = state.exc_mem;
    let mw = match memory(&em_latch, &mut state.data_memory) {
        Err(k) => {
            return Err(SimError { kind: k, cycle: state.instructions_count });
        },
        Ok(x) => x,
    };
    let mw_latch = state.mem_wrt;
    let (halt, we) = match writeback(&mw_latch, &mut state.registers) {
        Err(k) => {
            return Err(SimError { kind: k, cycle: state.instructions_count });
        },
        Ok(x) => x,
    };
    let count = state.instructions_count.wrapping_add(1);
    let next = State {
        inst_memory: state.inst_memory,
        data_memory: state.data_memory,
        registers: state.registers,
        program_counter: pc2,
        instructions_count: count,
        fet_dec: fd2,
        dec_exc: de2,
        exc_mem: em,
        mem_wrt: mw,
        wrt_end: we,
    };
    proof {
        lemma_cycle_preserves_wf(state@);
    }
    Ok((halt, next))
}

/// The instruction keeps branch targets word-aligned: if it is a `BEQZ`,
/// its sign-extended immediate is a multiple of four.
pub open spec fn branch_aligned(i: Instruction) -> bool {
    match i {
        Instruction::I(ii) => ii.op == OpCode::BEQZ ==> sext16(ii.imm) % 4 == 0,
        _ => true,
    }
}

/// Everything that feeds the program counter is word-aligned: the counter
/// itself, the latched next-addresses, every branch immediate in
/// instruction memory and in flight.
pub open spec fn pc_aligned(s: StateModel) -> bool {
    &&& s.pc % 4 == 0
    &&& s.fet_dec.pc_next % 4 == 0
    &&& s.dec_exc.pc_next % 4 == 0
    &&& branch_aligned(s.fet_dec.instr)
    &&& (s.dec_exc.instr matches Instruction::I(ii) && ii.op == OpCode::BEQZ ==> s.dec_exc.offset
        % 4 == 0)
    &&& forall|i: int| 0 <= i < s.imem.len() ==> branch_aligned(#[trigger] s.imem[i])
}

proof fn lemma_wadd_aligned(a: u32, b: u32)
    requires
        a % 4 == 0,
        b % 4 == 0,
    ensures
        wadd(a, b) % 4 == 0,
{
    assert((a + b) % 4 == 0) by (nonlinear_arith)
        requires
            a % 4 == 0,
            b % 4 == 0,
    ;
    if a + b > u32::MAX {
        assert((a + b - 0x1_0000_0000) % 4 == 0) by (nonlinear_arith)
            requires
                (a + b) % 4 == 0,
    ;
    }
}

/// With every branch immediate a multiple of four, a cycle keeps the
/// program counter word-aligned.
pub proof fn lemma_cycle_preserves_alignment(s: StateModel)
    requires
        s.wf(),
        pc_aligned(s),
        spec_cycle(s) is Ok,
    ensures
        pc_aligned(spec_cycle(s)->Ok_0.1),
{
    let (f_pc, f_fd) = spec_fetch(s.pc, s.imem);
    let idx = (s.pc / 4) as int;
    let fetched = if idx < s.imem.len() {
        s.imem[idx]
    } else {
        Instruction::spec_nop()
    };
    let pc4 = wadd(s.pc, 4);
    lemma_wadd_aligned(s.pc, 4);
    match fetched {
        Instruction::I(ii) => {
            if ii.op == OpCode::BEQZ && imm_sval(ii.imm) < 0 {
                lemma_wadd_aligned(pc4, sext16(ii.imm));
            }
        },
        _ => {},
    }
    match s.dec_exc.instr {
        Instruction::I(ii) => {
            if ii.op == OpCode::BEQZ {
                lemma_wadd_aligned(s.dec_exc.pc_next, s.dec_exc.offset);
                crate::instr::lemma_decode_encode(s.dec_exc.instr);
            }
        },
        _ => {},
    }
    match s.fet_dec.instr {
        Instruction::I(ii) => {
            if ii.op == OpCode::BEQZ {
                crate::instr::lemma_decode_encode(s.fet_dec.instr);
            }
        },
        _ => {},
    }
}

/// How a bounded run ends.
pub enum RunOutcome {
    /// A `HALT` retired; the state right after that cycle.
    Halted(State),
    /// The cycle budget ran out first; the state reached.
    Stopped(State),
    /// A cycle failed.
    Failed(SimError),
}

/// The spec-level image of a bounded run.
pub enum RunModel {
    Halted(StateModel),
    Stopped(StateModel),
    Failed(SimErrorKind, u64),
}

/// Runs cycles until a `HALT` retires, a cycle fails, or `fuel` cycles
/// have passed.
pub open spec fn spec_run(s: StateModel, fuel: nat) -> RunModel
    decreases fuel,
{
    if fuel == 0 {
        RunModel::Stopped(s)
    } else {
        match spec_cycle(s) {
            Err(k) => RunModel::Failed(k, s.count),
            Ok((halt, s2)) => if halt {
                RunModel::Halted(s2)
            } else {
                spec_run(s2, (fuel - 1) as nat)
            },
        }
    }
}

/// Runs the machine for at most `max_cycles` cycles.
pub fn run(state: State, max_cycles: u64) -> (r: RunOutcome)
    requires
        state@.wf(),
    ensures
        match r {
            RunOutcome::Halted(s2) => spec_run(state@, max_cycles as nat) == RunModel::Halted(s2@)
                && s2@.wf(),
            RunOutcome::Stopped(s2) => spec_run(state@, max_cycles as nat) == RunModel::Stopped(s2@)
                && s2@.wf(),
            RunOutcome::Failed(e) => spec_run(state@, max_cycles as nat) == RunModel::Failed(
                e.kind,
                e.cycle,
            ),
        },
{
    let ghost s0 = state@;
    let mut cur = state;
    let mut fuel = max_cycles;
    while fuel > 0
        invariant
            cur@.wf(),
            s0 == state@,
            spec_run(s0, max_cycles as nat) == spec_run(cur@, fuel as nat),
        decreases fuel,
    {
        match cycle(cur) {
            Err(e) => {
                return RunOutcome::Failed(e);
            },
            Ok((halt, s2)) => {
                if halt {
                    return RunOutcome::Halted(s2);
                }
                cur = s2;
            },
        }
        fuel = fuel - 1;
    }
    RunOutcome::Stopped(cur)
}

} // verus!
