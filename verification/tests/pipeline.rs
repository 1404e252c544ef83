use riscsim::assembler::assemble;
use riscsim::sim::{run, RunOutcome, SimErrorKind};
use riscsim::state::State;
use riscsim::text::word_to_hex;

fn lines(src: &[&str]) -> Vec<Vec<u8>> {
    src.iter().map(|s| s.as_bytes().to_vec()).collect()
}

/// Assembles a program, loads its hex image, and runs it to a halt.
fn run_asm(src: &[&str]) -> State {
    let words = assemble(&lines(src)).expect("assembly failed");
    let hex: Vec<Vec<u8>> = words.iter().map(|w| word_to_hex(*w)).collect();
    let state = State::with_memory(&hex).expect("load failed");
    match run(state, 100_000) {
        RunOutcome::Halted(s) => s,
        RunOutcome::Stopped(_) => panic!("ran out of cycles"),
        RunOutcome::Failed(e) => panic!("failed at cycle {}", e.cycle),
    }
}

fn run_asm_outcome(src: &[&str]) -> RunOutcome {
    let words = assemble(&lines(src)).expect("assembly failed");
    let hex: Vec<Vec<u8>> = words.iter().map(|w| word_to_hex(*w)).collect();
    let state = State::with_memory(&hex).expect("load failed");
    run(state, 100_000)
}

#[test]
fn data_print() {
    let img = lines(&["20420064", "fc000000", "000010e1"]);
    let state = State::with_memory(&img).unwrap();
    assert_eq!(state.data_memory, vec![0x2042_0064, 0xfc00_0000, 0x0000_10e1]);
}

#[test]
fn add_with_forwarding() {
    let s = run_asm(&["\taddi\t1\t0\t5", "\taddi\t2\t0\t7", "\tadd\t3\t1\t2", "\thalt"]);
    assert_eq!(s.registers[1], 5);
    assert_eq!(s.registers[2], 7);
    assert_eq!(s.registers[3], 12);
    assert_eq!(s.instructions_count, 8);
}

#[test]
fn load_use_stall() {
    let stalled = run_asm(&["\t.fill\t9", "\tlw\t2\t0\t0", "\tadd\t3\t2\t2", "\thalt"]);
    assert_eq!(stalled.registers[2], 9);
    assert_eq!(stalled.registers[3], 18);
    // Same shape without the dependence: exactly one cycle shorter.
    let baseline = run_asm(&["\t.fill\t9", "\tlw\t2\t0\t0", "\tadd\t3\t1\t1", "\thalt"]);
    assert_eq!(stalled.instructions_count, baseline.instructions_count + 1);
}

#[test]
fn load_without_use_does_not_stall() {
    let independent = run_asm(&["\t.fill\t9", "\tlw\t2\t0\t0", "\tadd\t3\t1\t1", "\thalt"]);
    // A load whose value nothing consumes right away costs no stall:
    // the count matches the plain straight-line formula (cycles = lines + 4).
    assert_eq!(independent.instructions_count, 8);
}

#[test]
fn forward_branch_not_taken() {
    let s = run_asm(&[
        "\taddi\t1\t0\t1",
        "\tbeqz\t0\t1\t+2",
        "\taddi\t2\t0\t1",
        "\thalt",
        "\taddi\t2\t0\t2",
        "\thalt",
    ]);
    assert_eq!(s.registers[2], 1);
    // Correct prediction: no squash cycles.
    assert_eq!(s.instructions_count, 8);
}

#[test]
fn forward_branch_taken_two_bubbles() {
    let s = run_asm(&["\tbeqz\t0\t0\t+4", "\thalt", "\taddi\t2\t0\t5", "\thalt"]);
    // The branch skips the first halt; the squash costs two cycles.
    assert_eq!(s.registers[2], 5);
    assert_eq!(s.instructions_count, 9);
}

#[test]
fn backward_branch_not_taken_two_bubbles() {
    let s = run_asm(&["\taddi\t1\t0\t1", "\tbeqz\t0\t1\t-8", "\thalt"]);
    assert_eq!(s.registers[1], 1);
    // Predicted taken, actually not: two squash cycles on top of 3 + 4.
    assert_eq!(s.instructions_count, 9);
}

#[test]
fn backward_branch_loop() {
    // r1 counts 1, 2, 3; the backward branch is taken while (r1 + 1) & 4
    // is zero and falls through when r1 reaches 3.
    let s = run_asm(&[
        "\taddi\t5\t0\t4",
        "loop\taddi\t1\t1\t1",
        "\taddi\t4\t1\t1",
        "\tand\t4\t4\t5",
        "\tbeqz\t0\t4\tloop",
        "\thalt",
    ]);
    assert_eq!(s.registers[1], 3);
    assert_eq!(s.registers[4], 4);
}

#[test]
fn store_load_with_forwarding() {
    let s = run_asm(&["\taddi\t1\t0\t42", "\tsw\t1\t0\t4", "\tlw\t2\t0\t4", "\thalt"]);
    assert_eq!(s.registers[2], 42);
    assert_eq!(s.data_memory[1], 42);
    assert_eq!(s.instructions_count, 8);
}

#[test]
fn data_word_retires_as_nop() {
    let s = run_asm(&["\taddi\t1\t0\t7", "\t.fill\t-559038737", "\thalt"]);
    assert_eq!(s.registers[1], 7);
    assert_eq!(s.data_memory[1], 0xdead_beef);
    assert_eq!(s.instructions_count, 7);
    for r in 2..32 {
        assert_eq!(s.registers[r], 0);
    }
}

#[test]
fn jalr_fails_at_execute() {
    match run_asm_outcome(&["\tjalr\t0", "\thalt"]) {
        RunOutcome::Failed(e) => {
            assert_eq!(e.kind, SimErrorKind::Unimplemented);
            assert_eq!(e.cycle, 2);
        },
        _ => panic!("expected a failure"),
    }
}

#[test]
fn load_out_of_bounds_fails() {
    match run_asm_outcome(&["\tlw\t1\t0\t100", "\thalt"]) {
        RunOutcome::Failed(e) => assert_eq!(e.kind, SimErrorKind::Bounds),
        _ => panic!("expected a failure"),
    }
}

#[test]
fn fetch_past_end_reads_nops() {
    let words = assemble(&lines(&["\taddi\t1\t0\t5"])).unwrap();
    let hex: Vec<Vec<u8>> = words.iter().map(|w| word_to_hex(*w)).collect();
    let state = State::with_memory(&hex).unwrap();
    match run(state, 50) {
        RunOutcome::Stopped(s) => {
            assert_eq!(s.registers[1], 5);
            assert_eq!(s.registers[0], 0);
        },
        _ => panic!("expected the cycle budget to run out"),
    }
}

#[test]
fn bad_hex_rejected() {
    let img = lines(&["20420064", "xyz"]);
    match State::with_memory(&img) {
        Err(e) => assert_eq!(e.line, 1),
        Ok(_) => panic!("expected a load failure"),
    }
}

#[test]
fn register_zero_write_discarded() {
    let s = run_asm(&["\taddi\t0\t0\t9", "\taddi\t1\t0\t3", "\thalt"]);
    assert_eq!(s.registers[0], 0);
    assert_eq!(s.registers[1], 3);
}
