use riscsim::assembler::{
    assemble, get_labels, parse_imm, parse_label_opcode, split_fields, AsmError, AsmErrorKind,
    LabelTable,
};
use riscsim::text::word_to_hex;

fn lines(src: &[&str]) -> Vec<Vec<u8>> {
    src.iter().map(|s| s.as_bytes().to_vec()).collect()
}

#[test]
fn golden_add_program() {
    let words = assemble(&lines(&[
        "\taddi\t1\t0\t5",
        "\taddi\t2\t0\t7",
        "\tadd\t3\t1\t2",
        "\thalt",
    ]))
    .unwrap();
    assert_eq!(words, vec![0x2001_0005, 0x2002_0007, 0x0022_1820, 0xfc00_0000]);
    let hex: Vec<Vec<u8>> = words.iter().map(|w| word_to_hex(*w)).collect();
    assert_eq!(hex[0], b"20010005".to_vec());
    assert_eq!(hex[1], b"20020007".to_vec());
    assert_eq!(hex[2], b"00221820".to_vec());
    assert_eq!(hex[3], b"fc000000".to_vec());
}

#[test]
fn forward_label_branch() {
    let words = assemble(&lines(&[
        "start\taddi\t1\t0\t1",
        "\tbeqz\t0\t0\tdone",
        "\taddi\t2\t0\t9",
        "done\thalt",
    ]))
    .unwrap();
    // displacement = 12 - 4*1 - 4 = 4
    assert_eq!(words[1], 0x1000_0004);
}

#[test]
fn backward_label_branch() {
    let words = assemble(&lines(&["loop\taddi\t1\t1\t1", "\tbeqz\t0\t3\tloop", "\thalt"]))
        .unwrap();
    // displacement = 0 - 4*1 - 4 = -8 -> 0xfff8
    assert_eq!(words[1], 0x1060_fff8);
}

#[test]
fn absolute_label_operand() {
    let words = assemble(&lines(&["\tlw\t2\t0\tdata", "data\t.fill\t42"])).unwrap();
    assert_eq!(words[0], 0x8c02_0004);
    assert_eq!(words[1], 42);
}

#[test]
fn fill_values() {
    let words = assemble(&lines(&[
        "\t.fill\t-559038737",
        "\t.fill\t3735928559",
        "\t.fill\t0",
        "\t.fill\t+7",
    ]))
    .unwrap();
    assert_eq!(words[0], 0xdead_beef);
    assert_eq!(words[1], 0xdead_beef);
    assert_eq!(words[2], 0);
    assert_eq!(words[3], 7);
}

#[test]
fn fill_out_of_range() {
    let r = assemble(&lines(&["\t.fill\t5000000000"]));
    assert_eq!(r, Err(AsmError { kind: AsmErrorKind::Range, line: 0 }));
    let r = assemble(&lines(&["\t.fill\t-2147483649"]));
    assert_eq!(r, Err(AsmError { kind: AsmErrorKind::Range, line: 0 }));
}

#[test]
fn immediate_out_of_range() {
    let r = assemble(&lines(&["\thalt", "\taddi\t1\t0\t40000"]));
    assert_eq!(r, Err(AsmError { kind: AsmErrorKind::Range, line: 1 }));
    let r = assemble(&lines(&["\taddi\t1\t0\t-32769"]));
    assert_eq!(r, Err(AsmError { kind: AsmErrorKind::Range, line: 0 }));
}

#[test]
fn duplicate_label() {
    let r = assemble(&lines(&["a\thalt", "a\thalt"]));
    assert_eq!(r, Err(AsmError { kind: AsmErrorKind::Symbol, line: 1 }));
}

#[test]
fn undefined_label() {
    let r = assemble(&lines(&["\tbeqz\t0\t0\tnope"]));
    assert_eq!(r, Err(AsmError { kind: AsmErrorKind::Symbol, line: 0 }));
    // A non-numeric immediate is read as a label name.
    let r = assemble(&lines(&["\taddi\t1\t0\t1.5"]));
    assert_eq!(r, Err(AsmError { kind: AsmErrorKind::Symbol, line: 0 }));
}

#[test]
fn syntax_errors() {
    let bad = [
        "\tfoo\t1\t2\t3",      // unknown opcode
        "\tadd\t32\t0\t0",     // register out of range
        "\tadd\t1\t2",         // missing operand
        "halt",                // no tab at all
        "waytoolonglabel\thalt", // label over 10 bytes
        "a-b\thalt",           // label not alphanumeric
        "\tmath\t1\t2\t3",     // math is not an assembly mnemonic
        "\tadd\t-1\t0\t0",     // negative register
    ];
    for (n, b) in bad.iter().enumerate() {
        let r = assemble(&lines(&[b]));
        assert_eq!(
            r,
            Err(AsmError { kind: AsmErrorKind::Syntax, line: 0 }),
            "case {}",
            n
        );
    }
}

#[test]
fn long_line_rejected() {
    let mut long = String::from("\thalt\t");
    while long.len() <= 1000 {
        long.push('x');
    }
    let r = assemble(&lines(&["\thalt", &long]));
    assert_eq!(r, Err(AsmError { kind: AsmErrorKind::Syntax, line: 1 }));
}

#[test]
fn split_and_parse_label_opcode() {
    let fields = split_fields(&b"lbl\tadd\t1\t2\t3".to_vec());
    assert_eq!(fields.len(), 5);
    assert_eq!(fields[0], b"lbl".to_vec());
    assert_eq!(fields[1], b"add".to_vec());
    assert_eq!(fields[4], b"3".to_vec());
    let fields = split_fields(&b"a\t\tb".to_vec());
    assert_eq!(fields, vec![b"a".to_vec(), b"".to_vec(), b"b".to_vec()]);

    let (label, op, rest) = parse_label_opcode(&b"x\tlw\t1\t0\t4".to_vec()).unwrap();
    assert_eq!(label, b"x".to_vec());
    assert_eq!(op, b"lw".to_vec());
    assert_eq!(rest.len(), 3);
    assert!(parse_label_opcode(&b"notabs".to_vec()).is_none());
}

#[test]
fn get_labels_maps_addresses() {
    let tab = get_labels(&lines(&["a\thalt", "\thalt", "b\thalt"])).unwrap();
    assert_eq!(tab.lookup(&b"a".to_vec()), Some(0));
    assert_eq!(tab.lookup(&b"b".to_vec()), Some(8));
    assert_eq!(tab.lookup(&b"c".to_vec()), None);
}

#[test]
fn parse_imm_paths() {
    let mut tab = LabelTable::new();
    tab.insert(b"spot".to_vec(), 12);
    assert_eq!(parse_imm(&b"42".to_vec(), &tab), Ok(42));
    assert_eq!(parse_imm(&b"-1".to_vec(), &tab), Ok(-1));
    assert_eq!(parse_imm(&b"spot".to_vec(), &tab), Ok(12));
    assert_eq!(parse_imm(&b"40000".to_vec(), &tab), Err(AsmErrorKind::Range));
    assert_eq!(parse_imm(&b"gone".to_vec(), &tab), Err(AsmErrorKind::Symbol));
}

#[test]
fn golden_full_program() {
    let words = assemble(&lines(&[
        "start\taddi\t1\t0\t5",
        "\tbeqz\t0\t1\tend",
        "\tadd\t3\t1\t1",
        "\tsw\t3\t0\tdata",
        "end\thalt",
        "data\t.fill\t123",
    ]))
    .unwrap();
    let hex: Vec<String> = words
        .iter()
        .map(|w| String::from_utf8(word_to_hex(*w)).unwrap())
        .collect();
    assert_eq!(
        hex,
        vec!["20010005", "10200008", "00211820", "ac030014", "fc000000", "0000007b"]
    );
}

#[test]
fn jalr_assembles() {
    let words = assemble(&lines(&["\tjalr\t5", "\thalt"])).unwrap();
    // opcode 0x13 in the top six bits, offset 5
    assert_eq!(words[0], (0x13 << 26) | 5);
}
