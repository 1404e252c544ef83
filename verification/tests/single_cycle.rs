use riscsim::assembler::assemble;
use riscsim::sim::SimErrorKind;
use riscsim::single::{run, RunOutcome, State};
use riscsim::text::word_to_hex;

fn lines(src: &[&str]) -> Vec<Vec<u8>> {
    src.iter().map(|s| s.as_bytes().to_vec()).collect()
}

fn run_asm(src: &[&str]) -> State {
    let words = assemble(&lines(src)).expect("assembly failed");
    let hex: Vec<Vec<u8>> = words.iter().map(|w| word_to_hex(*w)).collect();
    let state = State::with_memory(&hex).expect("load failed");
    match run(state, 100_000) {
        RunOutcome::Halted(s) => s,
        RunOutcome::Stopped(_) => panic!("ran out of steps"),
        RunOutcome::Failed(e) => panic!("failed at instruction {}", e.cycle),
    }
}

#[test]
fn test_memory() {
    let img = lines(&["deadbeef"]);
    let state = State::with_memory(&img).unwrap();
    assert_eq!(state.memory[0], 0xdeadbeef);
}

#[test]
fn add_program() {
    let s = run_asm(&["\taddi\t1\t0\t5", "\taddi\t2\t0\t7", "\tadd\t3\t1\t2", "\thalt"]);
    assert_eq!(s.registers[3], 12);
    // three instructions retire before the halt
    assert_eq!(s.num_executed_instructions, 3);
}

#[test]
fn store_then_load() {
    let s = run_asm(&["\taddi\t1\t0\t42", "\tsw\t1\t0\t4", "\tlw\t2\t0\t4", "\thalt"]);
    assert_eq!(s.registers[2], 42);
    assert_eq!(s.memory[1], 42);
}

#[test]
fn branch_not_taken() {
    let s = run_asm(&[
        "\taddi\t1\t0\t1",
        "\tbeqz\t0\t1\t+2",
        "\taddi\t2\t0\t1",
        "\thalt",
        "\taddi\t2\t0\t2",
        "\thalt",
    ]);
    assert_eq!(s.registers[2], 1);
}

#[test]
fn branch_taken_skips() {
    let s = run_asm(&["\tbeqz\t0\t0\t+4", "\thalt", "\taddi\t2\t0\t5", "\thalt"]);
    assert_eq!(s.registers[2], 5);
}

#[test]
fn counting_loop() {
    let s = run_asm(&[
        "\taddi\t5\t0\t4",
        "loop\taddi\t1\t1\t1",
        "\taddi\t4\t1\t1",
        "\tand\t4\t4\t5",
        "\tbeqz\t0\t4\tloop",
        "\thalt",
    ]);
    assert_eq!(s.registers[1], 3);
}

#[test]
fn data_word_is_a_nop() {
    let s = run_asm(&["\taddi\t1\t0\t7", "\t.fill\t-559038737", "\thalt"]);
    assert_eq!(s.registers[1], 7);
    for r in 2..32 {
        assert_eq!(s.registers[r], 0);
    }
}

#[test]
fn jalr_unimplemented() {
    let words = assemble(&lines(&["\tjalr\t0", "\thalt"])).unwrap();
    let hex: Vec<Vec<u8>> = words.iter().map(|w| word_to_hex(*w)).collect();
    let state = State::with_memory(&hex).unwrap();
    match run(state, 100) {
        RunOutcome::Failed(e) => assert_eq!(e.kind, SimErrorKind::Unimplemented),
        _ => panic!("expected a failure"),
    }
}

#[test]
fn running_off_the_end_fails() {
    let words = assemble(&lines(&["\taddi\t1\t0\t5"])).unwrap();
    let hex: Vec<Vec<u8>> = words.iter().map(|w| word_to_hex(*w)).collect();
    let state = State::with_memory(&hex).unwrap();
    match run(state, 100) {
        RunOutcome::Failed(e) => {
            assert_eq!(e.kind, SimErrorKind::Bounds);
            assert_eq!(e.cycle, 1);
        },
        _ => panic!("expected a failure"),
    }
}

#[test]
fn register_zero_stays_zero() {
    let s = run_asm(&["\taddi\t0\t0\t9", "\thalt"]);
    assert_eq!(s.registers[0], 0);
}
