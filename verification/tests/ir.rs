use zenlang::ir::{BytecodeFn, Chunk, Opcode, UpvalueDesc};

#[test]
fn opcode_bytes() {
    assert_eq!(Opcode::LoadConst(7).to_byte(), 0);
    assert_eq!(Opcode::Add.to_byte(), 9);
    assert_eq!(Opcode::NewClosure(1, 2).to_byte(), 35);
    assert_eq!(Opcode::Halt.to_byte(), 43);
    assert_eq!(Opcode::from_byte(9), Some(Opcode::Add));
    assert_eq!(Opcode::from_byte(26), Some(Opcode::CallMethod(0, 0)));
    assert_eq!(Opcode::from_byte(44), None);
    assert_eq!(Opcode::from_byte(255), None);
}

#[test]
fn opcode_byte_roundtrip() {
    for b in 0u8..44 {
        let op = Opcode::from_byte(b).unwrap();
        assert_eq!(op.to_byte(), b);
    }
}

#[test]
fn operand_counts() {
    assert_eq!(Opcode::LoadLocal(1).operand_count(), 1);
    assert_eq!(Opcode::NewClosure(1, 1).operand_count(), 1);
    assert_eq!(Opcode::MakeEnum(1, 1).operand_count(), 2);
    assert_eq!(Opcode::CallMethod(1, 1).operand_count(), 2);
    assert_eq!(Opcode::Pop.operand_count(), 0);
    assert_eq!(Opcode::MakeStruct(2).operand_count(), 1);
}

#[test]
fn emit_and_decode() {
    let mut c: Chunk<i64> = Chunk::new();
    c.emit_op(Opcode::LoadConst(0x1234), 1);
    c.emit_op(Opcode::CallMethod(3, 4), 2);
    c.emit_op(Opcode::Return, 3);
    assert_eq!(c.code, vec![0, 0x34, 0x12, 26, 3, 0, 4, 0, 27]);
    assert_eq!(c.lines, vec![1, 1, 1, 2, 2, 2, 2, 2, 3]);
    assert_eq!(c.len(), 9);
    assert_eq!(c.read_u16(1), 0x1234);
    assert_eq!(c.decode_at(0), Some((Opcode::LoadConst(0), 3)));
    assert_eq!(c.decode_at(3), Some((Opcode::CallMethod(0, 0), 8)));
    assert_eq!(c.decode_at(8), Some((Opcode::Return, 9)));
    assert_eq!(c.decode_at(9), None);
    assert_eq!(c.get_line(4), 2);
    assert_eq!(c.get_line(100), 0);
}

#[test]
fn patch_then_read() {
    let mut c: Chunk<i64> = Chunk::new();
    c.emit_op(Opcode::Jump(0), 1);
    c.patch_u16(1, 513);
    assert_eq!(c.read_u16(1), 513);
    assert_eq!(Chunk::<i64>::read_u16_static(&c.code, 1), 513);
}

#[test]
fn constants_and_names() {
    let mut c: Chunk<i64> = Chunk::new();
    assert_eq!(c.add_constant(10), 0);
    assert_eq!(c.add_constant(20), 1);
    assert_eq!(c.add_field_name("x"), 0);
    assert_eq!(c.add_field_name("y"), 1);
    assert_eq!(c.add_field_name("x"), 0);
    assert_eq!(c.field_names, vec!["x".to_string(), "y".to_string()]);
    assert_eq!(c.add_method_name("len"), 0);
    assert_eq!(c.add_method_name("len"), 0);
    assert_eq!(c.method_names.len(), 1);
}

#[test]
fn emit_u16_little_endian() {
    let mut c: Chunk<i64> = Chunk::new();
    c.emit_u16(0xABCD, 5);
    assert_eq!(c.code, vec![0xCD, 0xAB]);
    assert_eq!(c.lines, vec![5, 5]);
    c.emit_byte(9, 6);
    assert_eq!(c.code, vec![0xCD, 0xAB, 9]);
}

#[test]
fn new_function_is_empty() {
    let f: BytecodeFn<i64> = BytecodeFn::new("main".to_string(), 2);
    assert_eq!(f.name, "main");
    assert_eq!(f.arity, 2);
    assert!(f.chunk.code.is_empty());
    assert!(f.upvalues.is_empty());
    let u = UpvalueDesc { is_local: true, index: 3 };
    assert!(u.is_local);
    assert_eq!(u.index, 3);
}
