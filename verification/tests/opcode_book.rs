use cs2script::encode::encode_script;
use cs2script::error::ErrorKind;
use cs2script::script::{decode_script, CompiledScript, Instruction, OpcodeBook, Operand};

const TABLE: &str = "// opcode table\n\
push_constant_int,0\n\
branch,6\n\
return,21\n\
gated_command,22,999\n\
old_name,3\n\
new_name,3\n\
  push_constant_int , 1 \n\
\n\
pop_int_local,34,900\n";

#[test]
fn opcode_table_later_rows_replace_and_gates_skip() {
    let book = OpcodeBook::from_tables(TABLE, None, 947).expect("table");
    assert_eq!(book.opcode_for("push_constant_int").unwrap(), 1);
    assert_eq!(book.opcode_for("branch").unwrap(), 6);
    assert_eq!(book.opcode_for("pop_int_local").unwrap(), 34);
    assert_eq!(book.opcode_for("gated_command").unwrap_err().kind, ErrorKind::Missing);
    assert_eq!(book.name(1).unwrap(), "push_constant_int");
    assert_eq!(book.name(21).unwrap(), "return");
    assert!(book.name(0).is_err());
    assert!(book.name(22).is_err());
    assert!(book.name(500).is_err());
    // two names share opcode 3: the one that sorts last wins
    assert_eq!(book.name(3).unwrap(), "old_name");
    assert_eq!(
        book.commands(),
        vec!["branch", "new_name", "old_name", "pop_int_local", "push_constant_int", "return"]
    );
}

#[test]
fn opcode_table_gate_up_to_the_build_is_kept() {
    let book = OpcodeBook::from_tables("late,5,948\nearly,6,947\n", None, 947).expect("table");
    assert!(book.opcode_for("late").is_err());
    assert_eq!(book.opcode_for("early").unwrap(), 6);
}

#[test]
fn opcode_table_refused_rows() {
    let missing = OpcodeBook::from_tables("ok,1\nlonely\n", None, 947).unwrap_err();
    assert_eq!(missing.kind, ErrorKind::Missing);
    assert_eq!(missing.message, "opcode row missing id");
    let bad_id = OpcodeBook::from_tables("x,70000\n", None, 947).unwrap_err();
    assert_eq!(bad_id.kind, ErrorKind::Invalid);
    assert_eq!(bad_id.message, "invalid opcode id in row");
    let bad_gate = OpcodeBook::from_tables("x,1,soon\n", None, 947).unwrap_err();
    assert_eq!(bad_gate.message, "invalid opcode version gate");
    // a gated row is skipped before its id is read
    assert!(OpcodeBook::from_tables("x,notanumber,5000\n", None, 947).is_ok());
    // an empty gate is no gate
    assert_eq!(
        OpcodeBook::from_tables("x,9,\n", None, 947).unwrap().opcode_for("x").unwrap(),
        9
    );
}

#[test]
fn large_operand_table_marks_opcodes() {
    let book =
        OpcodeBook::from_tables(TABLE, Some("3,1\n// note\n21,0\n40, 2\n21,7\n"), 947).expect("table");
    assert!(book.has_large_operand(3));
    assert!(book.has_large_operand(21));
    assert!(book.has_large_operand(40));
    assert!(!book.has_large_operand(6));
    assert!(!book.has_large_operand(1000));
    let bad = OpcodeBook::from_tables(TABLE, Some("abc,1\n"), 947).unwrap_err();
    assert_eq!(bad.message, "invalid large-operand id in row");
    let no_flag = OpcodeBook::from_tables(TABLE, Some("3\n"), 947).unwrap_err();
    assert_eq!(no_flag.kind, ErrorKind::Missing);
    let bad_flag = OpcodeBook::from_tables(TABLE, Some("3,300\n"), 947).unwrap_err();
    assert_eq!(bad_flag.message, "invalid large-operand flag in row");
}

#[test]
fn encoded_script_decodes_with_the_same_book() {
    let book = OpcodeBook::from_tables(TABLE, None, 947).expect("table");
    let script = CompiledScript {
        name: None,
        local_count_int: 1,
        local_count_object: 0,
        local_count_long: 0,
        argument_count_int: 0,
        argument_count_object: 0,
        argument_count_long: 0,
        code: vec![
            Instruction { opcode: 1, command: "push_constant_int".to_string(), operand: Operand::Int(42) },
            Instruction { opcode: 34, command: "pop_int_local".to_string(), operand: Operand::Local(0) },
            Instruction { opcode: 21, command: "return".to_string(), operand: Operand::Byte(0) },
        ],
    };
    let bytes = encode_script(&script, &book, 947).expect("encode");
    let decoded = decode_script(&bytes, &book, 947).expect("decode");
    assert_eq!(decoded.code.len(), 3);
    assert_eq!(decoded.code[0].command, "push_constant_int");
    assert!(matches!(decoded.code[0].operand, Operand::Int(42)));
    assert_eq!(decoded.code[1].command, "pop_int_local");
    assert!(matches!(decoded.code[1].operand, Operand::Local(0)));
    assert_eq!(decoded.code[2].command, "return");
    assert_eq!(decoded.local_count_int, 1);
}

#[test]
fn every_named_opcode_maps_back_and_names_ascend() {
    let book = OpcodeBook::from_tables(TABLE, None, 947).expect("table");
    for op in 0u16..64 {
        if let Ok(name) = book.name(op) {
            assert_eq!(book.opcode_for(name).unwrap(), op);
        }
    }
    let names = book.commands();
    for w in names.windows(2) {
        assert!(w[0] < w[1]);
    }
}
