use riscsim::instr::{convert_num, format_of, Instruction, InstructionType, MathFunc, OpCode};
use riscsim::text::{disasm, parse_hex_line, word_to_hex};

fn bytes(s: &str) -> Vec<u8> {
    s.as_bytes().to_vec()
}

#[test]
fn test_convert() {
    let conv = convert_num(u16::MAX);
    println!("{:x}", conv);
}

#[test]
fn test_nop_print() {
    let mut out = disasm(&Instruction::nop());
    out.push(b'\n');
    assert_eq!(&out[..], b"nop\n");
}

#[test]
fn convert_num_values() {
    assert_eq!(convert_num(0), 0);
    assert_eq!(convert_num(0x7fff), 0x7fff);
    assert_eq!(convert_num(0x8000), 0xffff_8000);
    assert_eq!(convert_num(0xffff), 0xffff_ffff);
}

#[test]
fn math_round_trip() {
    let funcs = [
        MathFunc::ADD,
        MathFunc::SUB,
        MathFunc::AND,
        MathFunc::OR,
        MathFunc::SLL,
        MathFunc::SRL,
    ];
    for &f in funcs.iter() {
        for &(rd, rs, rt) in [(0u8, 0u8, 0u8), (1, 2, 3), (31, 31, 31), (15, 0, 7)].iter() {
            let i = Instruction::math(f, (rd, rs, rt));
            let back = Instruction::from_u32(i.as_u32());
            assert_eq!(back, i);
            let r = back.as_r().unwrap();
            assert_eq!(r.func, f);
            assert_eq!(r.rd, rd);
            assert_eq!(r.rs, rs);
            assert_eq!(r.rt, rt);
        }
    }
}

#[test]
fn i_round_trip() {
    let ops = [OpCode::ADDI, OpCode::LW, OpCode::SW, OpCode::BEQZ];
    for &op in ops.iter() {
        for &(rt, rs, imm) in
            [(0u8, 0u8, 0i16), (1, 2, -1), (31, 31, 32767), (5, 6, -32768), (7, 8, 100)].iter()
        {
            let i = Instruction::i_type(op, (rt, rs, imm));
            let back = Instruction::from_u32(i.as_u32());
            assert_eq!(back, i);
            let it = back.as_i().unwrap();
            assert_eq!(it.op, op);
            assert_eq!(it.rt, rt);
            assert_eq!(it.rs, rs);
            assert_eq!(it.imm_as_i32(), imm as i32);
        }
    }
}

#[test]
fn known_words() {
    assert_eq!(Instruction::i_type(OpCode::ADDI, (2, 2, 100)).as_u32(), 0x2042_0064);
    assert_eq!(Instruction::halt().as_u32(), 0xfc00_0000);
    assert_eq!(Instruction::nop().as_u32(), 0x0000_0020);
    // opcode 0, function 0x21: not a defined MATH function, so data.
    let d = Instruction::from_u32(0x0000_10e1);
    assert_eq!(d.as_data(), Ok(0x0000_10e1));
    // undefined opcode bits: data too.
    let d2 = Instruction::from_u32(0xdead_beef);
    assert_eq!(d2.as_data(), Ok(0xdead_beef));
    // encoding a data word reproduces it.
    assert_eq!(d2.as_u32(), 0xdead_beef);
}

#[test]
fn disasm_forms() {
    assert_eq!(disasm(&Instruction::math(MathFunc::SUB, (3, 1, 2))), bytes("sub 3 1 2"));
    assert_eq!(
        disasm(&Instruction::i_type(OpCode::ADDI, (2, 2, 100))),
        bytes("addi 2 2 100")
    );
    assert_eq!(
        disasm(&Instruction::i_type(OpCode::BEQZ, (0, 1, -4))),
        bytes("beqz 0 1 -4")
    );
    assert_eq!(disasm(&Instruction::halt()), bytes("halt"));
    assert_eq!(disasm(&Instruction::jalr(7)), bytes("jalr 7"));
    assert_eq!(disasm(&Instruction::from_u32(0x0000_10e1)), bytes("data: 4321"));
}

#[test]
fn hex_forms() {
    assert_eq!(word_to_hex(0xdead_beef), bytes("deadbeef"));
    assert_eq!(word_to_hex(0x0000_0005), bytes("00000005"));
    assert_eq!(parse_hex_line(&bytes("deadbeef")), Some(0xdead_beef));
    assert_eq!(parse_hex_line(&bytes("DEADbeef")), Some(0xdead_beef));
    assert_eq!(parse_hex_line(&bytes("deadbee")), None);
    assert_eq!(parse_hex_line(&bytes("deadbeefa")), None);
    assert_eq!(parse_hex_line(&bytes("zzzzzzzz")), None);
    assert_eq!(parse_hex_line(&bytes("")), None);
}

#[test]
fn formats() {
    assert_eq!(format_of(OpCode::MATH), InstructionType::R);
    for op in [OpCode::LW, OpCode::SW, OpCode::ADDI, OpCode::BEQZ] {
        assert_eq!(format_of(op), InstructionType::I);
    }
    assert_eq!(format_of(OpCode::JALR), InstructionType::J);
    assert_eq!(format_of(OpCode::HALT), InstructionType::J);
    assert_eq!(Instruction::nop().instr_type(), Some(InstructionType::R));
    assert_eq!(Instruction::halt().instr_type(), Some(InstructionType::J));
    assert_eq!(Instruction::from_u32(0xdead_beef).instr_type(), None);
    assert_eq!(Instruction::halt().opcode(), Some(OpCode::HALT));
    assert_eq!(Instruction::from_u32(0xdead_beef).opcode(), None);
}

#[test]
fn alu_operations() {
    assert_eq!(MathFunc::ADD.as_fn(0xffff_ffff, 1), 0);
    assert_eq!(MathFunc::SUB.as_fn(0, 1), 0xffff_ffff);
    assert_eq!(MathFunc::AND.as_fn(0b1100, 0b1010), 0b1000);
    assert_eq!(MathFunc::OR.as_fn(0b1100, 0b1010), 0b1110);
    assert_eq!(MathFunc::SLL.as_fn(1, 4), 16);
    assert_eq!(MathFunc::SRL.as_fn(0x8000_0000, 31), 1);
    // shift amounts are taken modulo 32
    assert_eq!(MathFunc::SLL.as_fn(1, 32), 1);
}
