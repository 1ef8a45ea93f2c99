use cs2script::script::{CompiledScript, Instruction, Operand, MIN_SCRIPT_BUILD};
use cs2script::transpile::ast::ScriptId;
use cs2script::transpile::catalog::{ScriptCatalog, SignatureMap, TranspileLimits};
use cs2script::transpile::transpiler::Transpiler;
use cs2script::transpile::infer_return_type_for_script;
use cs2script::transpile::scope::NameTable;

fn test_script(code: Vec<Instruction>) -> CompiledScript {
    CompiledScript {
        name: Some("[proc,test_script]".to_string()),
        local_count_int: 0,
        local_count_object: 0,
        local_count_long: 0,
        argument_count_int: 0,
        argument_count_object: 0,
        argument_count_long: 0,
        code,
    }
}

#[test]
fn infer_return_type_detects_value_return_without_cfg() {
    let script = test_script(vec![
        Instruction {
            opcode: 0,
            command: "push_constant_int".to_string(),
            operand: Operand::Int(1),
        },
        Instruction {
            opcode: 0,
            command: "return".to_string(),
            operand: Operand::Int(0),
        },
    ]);
    let component_names = NameTable::new();
    let enum_value_names = NameTable::new();

    assert_eq!(
        infer_return_type_for_script(
            &script,
            ScriptId(91),
            MIN_SCRIPT_BUILD,
            &component_names,
            &enum_value_names,
            &ScriptCatalog::default(),
            &SignatureMap::new(),
        ),
        "number"
    );
}

#[test]
fn infer_return_type_ignores_unreachable_void_return_with_cfg() {
    let script = test_script(vec![
        Instruction {
            opcode: 0,
            command: "push_constant_int".to_string(),
            operand: Operand::Int(1),
        },
        Instruction {
            opcode: 0,
            command: "return".to_string(),
            operand: Operand::Int(0),
        },
        Instruction {
            opcode: 0,
            command: "return".to_string(),
            operand: Operand::Int(0),
        },
    ]);
    let component_names = NameTable::new();
    let enum_value_names = NameTable::new();

    assert_eq!(
        infer_return_type_for_script(
            &script,
            ScriptId(92),
            MIN_SCRIPT_BUILD,
            &component_names,
            &enum_value_names,
            &ScriptCatalog::default(),
            &SignatureMap::new(),
        ),
        "number"
    );
}

#[test]
fn transpile_guard_rejects_large_instruction_stream() {
    let script = test_script(vec![
        Instruction {
            opcode: 0,
            command: "return".to_string(),
            operand: Operand::Int(0),
        };
        2
    ]);
    let Err(err) = Transpiler::new()
        .with_limits(TranspileLimits {
            max_script_bytes: 0,
            max_instructions: 1,
            max_generated_bytes: 0,
        })
        .transpile(&script, ScriptId(42))
    else {
        panic!("instruction guard should fail");
    };
    assert!(
        err.to_string()
            .contains("instruction count 2 exceeds limit 1"),
        "unexpected error: {err:?}"
    );
}

#[test]
fn transpile_guard_rejects_large_generated_source() {
    let script = test_script(vec![Instruction {
        opcode: 0,
        command: "return".to_string(),
        operand: Operand::Int(0),
    }]);
    let Err(err) = Transpiler::new()
        .with_limits(TranspileLimits {
            max_script_bytes: 0,
            max_instructions: 0,
            max_generated_bytes: 16,
        })
        .transpile(&script, ScriptId(7))
    else {
        panic!("generated source guard should fail");
    };
    assert!(
        err.to_string().contains("generated source"),
        "unexpected error: {err:?}"
    );
}


#[test]
fn byte_guards_name_their_unit() {
    let script = test_script(vec![Instruction {
        opcode: 0,
        command: "return".to_string(),
        operand: Operand::Int(0),
    }]);
    let Err(err) = Transpiler::new()
        .with_limits(TranspileLimits {
            max_script_bytes: 0,
            max_instructions: 0,
            max_generated_bytes: 16,
        })
        .transpile(&script, ScriptId(7))
    else {
        panic!("generated source guard should fail");
    };
    assert!(err.message.starts_with("transpile guard hit for script 7: generated source "));
    assert!(err.message.contains(" bytes exceeds limit 16"));
    let book = cs2script::script::OpcodeBook::from_tables("return,21\n", None, 947).expect("table");
    let Err(err) = Transpiler::new()
        .with_limits(TranspileLimits {
            max_script_bytes: 3,
            max_instructions: 0,
            max_generated_bytes: 0,
        })
        .transpile_from_bytes(&[0u8; 5], &book, 947, ScriptId(9))
    else {
        panic!("compiled size guard should fail");
    };
    assert_eq!(err.message, "transpile guard hit for script 9: compiled size 5 bytes exceeds limit 3");
}
