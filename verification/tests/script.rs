use cs2script::error::Error;
use cs2script::pragma::{parse_cs2_asm, parse_operand_asm, script_to_asm};
use cs2script::script::{CompiledScript, Instruction, Operand, SwitchCase, VarBitRef, VarRef};
use cs2script::vars::VarDomain;


fn assert_operand_eq(a: &Operand, b: &Operand) {
    match (a, b) {
        (Operand::Int(av), Operand::Int(bv)) => assert_eq!(av, bv),
        (Operand::Long(av), Operand::Long(bv)) => assert_eq!(av, bv),
        (Operand::Str(av), Operand::Str(bv)) => assert_eq!(av, bv),
        (Operand::Local(av), Operand::Local(bv)) => assert_eq!(av, bv),
        (Operand::VarRef(av), Operand::VarRef(bv)) => {
            assert_eq!(av.domain, bv.domain);
            assert_eq!(av.id, bv.id);
            assert_eq!(av.transmog, bv.transmog);
        }
        (Operand::VarBitRef(av), Operand::VarBitRef(bv)) => {
            assert_eq!(av.id, bv.id);
            assert_eq!(av.transmog, bv.transmog);
        }
        (Operand::Branch(av), Operand::Branch(bv)) => assert_eq!(av, bv),
        (Operand::Switch(av), Operand::Switch(bv)) => {
            assert_eq!(av.len(), bv.len());
            for (ac, bc) in av.iter().zip(bv.iter()) {
                assert_eq!(ac.value, bc.value);
                assert_eq!(ac.target, bc.target);
            }
        }
        (Operand::Script(av), Operand::Script(bv)) => assert_eq!(av, bv),
        (Operand::Array(av), Operand::Array(bv)) => assert_eq!(av, bv),
        (Operand::Count(av), Operand::Count(bv)) => assert_eq!(av, bv),
        (Operand::Byte(av), Operand::Byte(bv)) => assert_eq!(av, bv),
        _ => panic!("operand type mismatch: {a:?} vs {b:?}"),
    }
}

#[test]
fn asm_roundtrip_preserves_unknown_raw32_operands() -> Result<(), Error> {
    let script = CompiledScript {
        name: Some("raw32_test".to_string()),
        local_count_int: 0,
        local_count_object: 0,
        local_count_long: 0,
        argument_count_int: 0,
        argument_count_object: 0,
        argument_count_long: 0,
        code: vec![Instruction {
            opcode: 0,
            command: "field6317".to_string(),
            operand: Operand::Int(0x1234_5678),
        }],
    };
    let listing = script_to_asm(&script);
    assert!(listing.contains("field6317 raw32:305419896"));
    let reparsed = parse_cs2_asm(&listing)?;
    assert_eq!(reparsed.code.len(), 1);
    assert_operand_eq(&script.code[0].operand, &reparsed.code[0].operand);
    Ok(())
}

#[test]
fn fixed_domain_var_operands_parse_domain_and_legacy_integer_forms() -> Result<(), Error> {
    assert_operand_eq(
        &parse_operand_asm("push_varc_string", "client:42")?,
        &Operand::VarRef(VarRef {
            domain: VarDomain::Client,
            id: 42,
            transmog: false,
        }),
    );
    assert_operand_eq(
        &parse_operand_asm("push_varclan", "77")?,
        &Operand::VarRef(VarRef {
            domain: VarDomain::Clan,
            id: 77,
            transmog: false,
        }),
    );
    assert_operand_eq(
        &parse_operand_asm("push_varclansetting_string", "clan_setting:99")?,
        &Operand::VarRef(VarRef {
            domain: VarDomain::ClanSetting,
            id: 99,
            transmog: false,
        }),
    );
    assert_operand_eq(
        &parse_operand_asm("push_varclanbit", "123")?,
        &Operand::VarBitRef(VarBitRef {
            id: 123,
            transmog: false,
        }),
    );
    Ok(())
}

#[test]
fn asm_roundtrip_preserves_all_operand_types() {
    let script = CompiledScript {
        name: Some("test_script".to_string()),
        local_count_int: 3,
        local_count_object: 1,
        local_count_long: 0,
        argument_count_int: 1,
        argument_count_object: 0,
        argument_count_long: 0,
        code: vec![
            Instruction {
                opcode: 0,
                command: "push_constant_int".into(),
                operand: Operand::Int(42),
            },
            Instruction {
                opcode: 0,
                command: "push_int_local".into(),
                operand: Operand::Local(0),
            },
            Instruction {
                opcode: 0,
                command: "add".into(),
                operand: Operand::Byte(0),
            },
            Instruction {
                opcode: 0,
                command: "pop_int_local".into(),
                operand: Operand::Local(1),
            },
            Instruction {
                opcode: 0,
                command: "push_long_constant".into(),
                operand: Operand::Long(999),
            },
            Instruction {
                opcode: 0,
                command: "push_constant_string".into(),
                operand: Operand::Str("hello\nworld".into()),
            },
            Instruction {
                opcode: 0,
                command: "push_long_local".into(),
                operand: Operand::Local(0),
            },
            Instruction {
                opcode: 0,
                command: "push_var".into(),
                operand: Operand::VarRef(VarRef {
                    domain: VarDomain::Player,
                    id: 1234,
                    transmog: true,
                }),
            },
            Instruction {
                opcode: 0,
                command: "pop_var".into(),
                operand: Operand::VarRef(VarRef {
                    domain: VarDomain::Client,
                    id: 42,
                    transmog: false,
                }),
            },
            Instruction {
                opcode: 0,
                command: "push_varbit".into(),
                operand: Operand::VarBitRef(VarBitRef {
                    id: 5678,
                    transmog: true,
                }),
            },
            Instruction {
                opcode: 0,
                command: "push_varc_string".into(),
                operand: Operand::VarRef(VarRef {
                    domain: VarDomain::Client,
                    id: 9,
                    transmog: false,
                }),
            },
            Instruction {
                opcode: 0,
                command: "pop_varc_string".into(),
                operand: Operand::VarRef(VarRef {
                    domain: VarDomain::Client,
                    id: 10,
                    transmog: false,
                }),
            },
            Instruction {
                opcode: 0,
                command: "push_varclan".into(),
                operand: Operand::VarRef(VarRef {
                    domain: VarDomain::Clan,
                    id: 11,
                    transmog: false,
                }),
            },
            Instruction {
                opcode: 0,
                command: "push_varclansetting_long".into(),
                operand: Operand::VarRef(VarRef {
                    domain: VarDomain::ClanSetting,
                    id: 12,
                    transmog: false,
                }),
            },
            Instruction {
                opcode: 0,
                command: "push_varclanbit".into(),
                operand: Operand::VarBitRef(VarBitRef {
                    id: 13,
                    transmog: false,
                }),
            },
            Instruction {
                opcode: 0,
                command: "branch_if_true".into(),
                operand: Operand::Branch(15),
            },
            Instruction {
                opcode: 0,
                command: "gosub_with_params".into(),
                operand: Operand::Script(9999),
            },
            Instruction {
                opcode: 0,
                command: "define_array".into(),
                operand: Operand::Array(0),
            },
            Instruction {
                opcode: 0,
                command: "join_string".into(),
                operand: Operand::Count(3),
            },
            Instruction {
                opcode: 0,
                command: "branch_equals".into(),
                operand: Operand::Branch(7),
            },
            Instruction {
                opcode: 0,
                command: "switch".into(),
                operand: Operand::Switch(vec![
                    SwitchCase {
                        value: 0,
                        target: 10,
                    },
                    SwitchCase {
                        value: 1,
                        target: 20,
                    },
                ]),
            },
            Instruction {
                opcode: 0,
                command: "return".into(),
                operand: Operand::Byte(0),
            },
        ],
    };

    let listing = script_to_asm(&script);
    let parsed = parse_cs2_asm(&listing).expect("parse_cs2_asm should succeed");

    assert_eq!(script.name, parsed.name);
    assert_eq!(script.local_count_int, parsed.local_count_int);
    assert_eq!(script.local_count_object, parsed.local_count_object);
    assert_eq!(script.local_count_long, parsed.local_count_long);
    assert_eq!(script.argument_count_int, parsed.argument_count_int);
    assert_eq!(script.argument_count_object, parsed.argument_count_object);
    assert_eq!(script.argument_count_long, parsed.argument_count_long);
    assert_eq!(
        script.code.len(),
        parsed.code.len(),
        "instruction count mismatch"
    );

    for (i, (orig, round)) in script.code.iter().zip(parsed.code.iter()).enumerate() {
        assert_eq!(orig.command, round.command, "command mismatch at index {i}");
        assert_operand_eq(&orig.operand, &round.operand);
    }
}

#[test]
fn asm_roundtrip_preserves_empty_switch() -> Result<(), Error> {
    let script = CompiledScript {
        name: None,
        local_count_int: 1,
        local_count_object: 0,
        local_count_long: 0,
        argument_count_int: 0,
        argument_count_object: 0,
        argument_count_long: 0,
        code: vec![
            Instruction {
                opcode: 0,
                command: "push_int_local".into(),
                operand: Operand::Local(0),
            },
            Instruction {
                opcode: 0,
                command: "switch".into(),
                operand: Operand::Switch(vec![]),
            },
            Instruction {
                opcode: 0,
                command: "return".into(),
                operand: Operand::Byte(0),
            },
        ],
    };

    let listing = script_to_asm(&script);
    let parsed = parse_cs2_asm(&listing)?;

    assert_eq!(parsed.code.len(), 3);
    assert_eq!(parsed.code[1].command, "switch");
    assert_operand_eq(&script.code[1].operand, &parsed.code[1].operand);
    Ok(())
}

#[test]
fn scoped_data_file_names_start_at_build_685() {
    assert!(cs2script::script::scoped_data_file_names("opcodes", 684, 1).is_empty());
    assert_eq!(
        cs2script::script::scoped_data_file_names("opcodes", 947, 1),
        vec!["opcodes-947-1.txt".to_string(), "opcodes-947.txt".to_string()]
    );
}

#[test]
fn asm_roundtrip_keeps_backslashes_not_before_n() -> Result<(), Error> {
    let text = "C:\\temp\\x \"quoted\" \\\\ line\nend\\".to_string();
    let script = CompiledScript {
        name: None,
        local_count_int: 0,
        local_count_object: 0,
        local_count_long: 0,
        argument_count_int: 0,
        argument_count_object: 0,
        argument_count_long: 0,
        code: vec![Instruction {
            opcode: 0,
            command: "push_constant_string".to_string(),
            operand: Operand::Str(text.clone()),
        }],
    };
    let reparsed = parse_cs2_asm(&script_to_asm(&script))?;
    assert_operand_eq(&reparsed.code[0].operand, &Operand::Str(text));
    Ok(())
}
