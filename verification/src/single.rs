//! The single-cycle simulator: one instruction fetched, executed and
//! retired per step, on one unified word-addressed memory.

use vstd::prelude::*;

use crate::instr::{decode_word, math_eval, sext16, Instruction, OpCode};
use crate::sim::{wadd, SimError, SimErrorKind};
use crate::state::{image_ok, load_words, zero_registers, LoadError};
use crate::text::hex8_val;
use crate::assembler::byte_lines;

verus! {

/// The machine model: memory and registers as sequences.
pub struct SmallModel {
    pub mem: Seq<u32>,
    pub regs: Seq<u32>,
    pub pc: u32,
    pub count: u64,
}

impl SmallModel {
    /// 32 registers with `r0` zero.
    pub open spec fn wf(self) -> bool {
        self.regs.len() == 32 && self.regs[0] == 0
    }
}

/// The single-cycle machine.
pub struct State {
    pub memory: Vec<u32>,
    pub registers: Vec<u32>,
    pub program_counter: u32,
    pub num_executed_instructions: u64,
}

impl View for State {
    type V = SmallModel;

    open spec fn view(&self) -> SmallModel {
        SmallModel {
            mem: self.memory@,
            regs: self.registers@,
            pc: self.program_counter,
            count: self.num_executed_instructions,
        }
    }
}

impl State {
    /// Loads a machine image into memory, with registers and counters
    /// zeroed.
    pub fn with_memory(lines: &Vec<Vec<u8>>) -> (r: Result<State, LoadError>)
        ensures
            match r {
                Ok(s) => {
                    &&& image_ok(byte_lines(lines@))
                    &&& s@.wf()
                    &&& s@.mem.len() == lines@.len()
                    &&& forall|i: int|
                        0 <= i < lines@.len() ==> #[trigger] s@.mem[i] == hex8_val(lines@[i]@)
                    &&& s@.pc == 0
                    &&& s@.count == 0
                    &&& forall|i: int| 0 <= i < 32 ==> s@.regs[i] == 0
                },
                Err(e) => {
                    &&& e.line < lines@.len()
                    &&& !crate::text::hex_line_ok(lines@[e.line as int]@)
                },
            },
    {
        let words = match load_words(lines) {
            Ok(w) => w,
            Err(e) => {
                return Err(e);
            },
        };
        Ok(
            State {
                memory: words,
                registers: zero_registers(),
                program_counter: 0,
                num_executed_instructions: 0,
            },
        )
    }
}

/// One step: fetch the word at `pc`, advance `pc` by 4, execute. Loads,
/// stores and `ADDI` use the wrapping sum `reg[rs] + sext(imm)`; a taken
/// `BEQZ` adds its offset to the already-advanced `pc`; data words are
/// NOPs; `JALR` fails; `HALT` stops without counting itself. `r0` is
/// restored after every step.
pub open spec fn spec_step(s: SmallModel) -> Result<(bool, SmallModel), SimErrorKind>
    recommends
        s.wf(),
{
    let idx = (s.pc / 4) as int;
    if idx >= s.mem.len() {
        Err(SimErrorKind::Bounds)
    } else {
        let instr = decode_word(s.mem[idx]);
        let pc2 = wadd(s.pc, 4);
        match instr {
            Instruction::R(rr) => {
                let v = math_eval(rr.func, s.regs[rr.rs as int], s.regs[rr.rt as int]);
                Ok(
                    (
                        false,
                        SmallModel {
                            mem: s.mem,
                            regs: s.regs.update(rr.rd as int, v).update(0, 0),
                            pc: pc2,
                            count: vstd::wrapping::u64_specs::wrapping_add(s.count, 1),
                        },
                    ),
                )
            },
            Instruction::I(ii) => {
                let addr = wadd(s.regs[ii.rs as int], sext16(ii.imm));
                let widx = (addr / 4) as int;
                if ii.op == OpCode::LW {
                    if widx >= s.mem.len() {
                        Err(SimErrorKind::Bounds)
                    } else {
                        Ok(
                            (
                                false,
                                SmallModel {
                                    mem: s.mem,
                                    regs: s.regs.update(ii.rt as int, s.mem[widx]).update(0, 0),
                                    pc: pc2,
                                    count: vstd::wrapping::u64_specs::wrapping_add(s.count, 1),
                                },
                            ),
                        )
                    }
                } else if ii.op == OpCode::SW {
                    if widx >= s.mem.len() {
                        Err(SimErrorKind::Bounds)
                    } else {
                        Ok(
                            (
                                false,
                                SmallModel {
                                    mem: s.mem.update(widx, s.regs[ii.rt as int]),
                                    regs: s.regs.update(0, 0),
                                    pc: pc2,
                                    count: vstd::wrapping::u64_specs::wrapping_add(s.count, 1),
                                },
                            ),
                        )
                    }
                } else if ii.op == OpCode::ADDI {
                    Ok(
                        (
                            false,
                            SmallModel {
                                mem: s.mem,
                                regs: s.regs.update(ii.rt as int, addr).update(0, 0),
                                pc: pc2,
                                count: vstd::wrapping::u64_specs::wrapping_add(s.count, 1),
                            },
                        ),
                    )
                } else {
                    // BEQZ
                    let pc3 = if s.regs[ii.rs as int] == 0 {
                        wadd(pc2, sext16(ii.imm))
                    } else {
                        pc2
                    };
                    Ok(
                        (
                            false,
                            SmallModel {
                                mem: s.mem,
                                regs: s.regs.update(0, 0),
                                pc: pc3,
                                count: vstd::wrapping::u64_specs::wrapping_add(s.count, 1),
                            },
                        ),
                    )
                }
            },
            Instruction::J(jj) => {
                if jj.op == OpCode::JALR {
                    Err(SimErrorKind::Unimplemented)
                } else {
                    Ok(
                        (
                            true,
                            SmallModel { mem: s.mem, regs: s.regs, pc: pc2, count: s.count },
                        ),
                    )
                }
            },
            Instruction::Data(_) => Ok(
                (
                    false,
                    SmallModel {
                        mem: s.mem,
                        regs: s.regs.update(0, 0),
                        pc: pc2,
                        count: vstd::wrapping::u64_specs::wrapping_add(s.count, 1),
                    },
                ),
            ),
        }
    }
}

/// Executes one instruction.
pub fn step(state: State) -> (r: Result<(bool, State), SimError>)
    requires
        state@.wf(),
    ensures
        match r {
            Ok((halt, s2)) => spec_step(state@) == Ok::<_, SimErrorKind>((halt, s2@)) && s2@.wf(),
            Err(e) => {
                &&& spec_step(state@) is Err
                &&& e.kind == spec_step(state@)->Err_0
                &&& e.cycle == state@.count
            },
        },
{
    let mut state = state;
    let idx = (state.program_counter / 4) as usize;
    if idx >= state.memory.len() {
        return Err(SimError { kind: SimErrorKind::Bounds, cycle: state.num_executed_instructions });
    }
    let instr = Instruction::from_u32(state.memory[idx]);
    let pc2 = state.program_counter.wrapping_add(4);
    match instr {
        Instruction::R(rr) => {
            let v = rr.func.as_fn(
                state.registers[rr.rs as usize],
                state.registers[rr.rt as usize],
            );
            state.registers.set(rr.rd as usize, v);
            state.registers.set(0, 0);
            state.program_counter = pc2;
            state.num_executed_instructions = state.num_executed_instructions.wrapping_add(1);
            Ok((false, state))
        },
        Instruction::I(ii) => {
            let addr = state.registers[ii.rs as usize].wrapping_add(
                crate::instr::convert_num(ii.imm),
            );
            let widx = (addr / 4) as usize;
            if matches!(ii.op, OpCode::LW) {
                if widx >= state.memory.len() {
                    return Err(
                        SimError {
                            kind: SimErrorKind::Bounds,
                            cycle: state.num_executed_instructions,
                        },
                    );
                }
                let v = state.memory[widx];
                state.registers.set(ii.rt as usize, v);
                state.registers.set(0, 0);
                state.program_counter = pc2;
                state.num_executed_instructions = state.num_executed_instructions.wrapping_add(1);
                Ok((false, state))
            } else if matches!(ii.op, OpCode::SW) {
                if widx >= state.memory.len() {
                    return Err(
                        SimError {
                            kind: SimErrorKind::Bounds,
                            cycle: state.num_executed_instructions,
                        },
                    );
                }
                let v = state.registers[ii.rt as usize];
                state.memory.set(widx, v);
                state.registers.set(0, 0);
                state.program_counter = pc2;
                state.num_executed_instructions = state.num_executed_instructions.wrapping_add(1);
                Ok((false, state))
            } else if matches!(ii.op, OpCode::ADDI) {
                state.registers.set(ii.rt as usize, addr);
                state.registers.set(0, 0);
                state.program_counter = pc2;
                state.num_executed_instructions = state.num_executed_instructions.wrapping_add(1);
                Ok((false, state))
            } else {
                let taken = state.registers[ii.rs as usize] == 0;
                state.registers.set(0, 0);
                state.program_counter = if taken {
                    pc2.wrapping_add(crate::instr::convert_num(ii.imm))
                } else {
                    pc2
                };
                state.num_executed_instructions = state.num_executed_instructions.wrapping_add(1);
                Ok((false, state))
            }
        },
        Instruction::J(jj) => {
            if matches!(jj.op, OpCode::JALR) {
                Err(
                    SimError {
                        kind: SimErrorKind::Unimplemented,
                        cycle: state.num_executed_instructions,
                    },
                )
            } else {
                state.program_counter = pc2;
                Ok((true, state))
            }
        },
        Instruction::Data(_) => {
            state.registers.set(0, 0);
            state.program_counter = pc2;
            state.num_executed_instructions = state.num_executed_instructions.wrapping_add(1);
            Ok((false, state))
        },
    }
}

/// How a bounded single-cycle run ends.
pub enum RunOutcome {
    Halted(State),
    Stopped(State),
    Failed(SimError),
}

pub enum RunModel {
    Halted(SmallModel),
    Stopped(SmallModel),
    Failed(SimErrorKind, u64),
}

/// Steps until `HALT`, a failure, or `fuel` instructions have run.
pub open spec fn spec_run(s: SmallModel, fuel: nat) -> RunModel
    decreases fuel,
{
    if fuel == 0 {
        RunModel::Stopped(s)
    } else {
        match spec_step(s) {
            Err(k) => RunModel::Failed(k, s.count),
            Ok((halt, s2)) => if halt {
                RunModel::Halted(s2)
            } else {
                spec_run(s2, (fuel - 1) as nat)
            },
        }
    }
}

/// Runs the machine for at most `max_steps` instructions.
pub fn run(state: State, max_steps: u64) -> (r: RunOutcome)
    requires
        state@.wf(),
    ensures
        match r {
            RunOutcome::Halted(s2) => spec_run(state@, max_steps as nat) == RunModel::Halted(s2@)
                && s2@.wf(),
            RunOutcome::Stopped(s2) => spec_run(state@, max_steps as nat) == RunModel::Stopped(s2@)
                && s2@.wf(),
            RunOutcome::Failed(e) => spec_run(state@, max_steps as nat) == RunModel::Failed(
                e.kind,
                e.cycle,
            ),
        },
{
    let ghost s0 = state@;
    let mut cur = state;
    let mut fuel = max_steps;
    while fuel > 0
        invariant
            cur@.wf(),
            s0 == state@,
            spec_run(s0, max_steps as nat) == spec_run(cur@, fuel as nat),
        decreases fuel,
    {
        match step(cur) {
            Err(e) => {
                return RunOutcome::Failed(e);
            },
            Ok((halt, s2)) => {
                if halt {
                    return RunOutcome::Halted(s2);
                }
                cur = s2;
            },
        }
        fuel = fuel - 1;
    }
    RunOutcome::Stopped(cur)
}

} // verus!
