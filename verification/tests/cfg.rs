use cs2script::transpile::ast::{
    CallExpr, Expression, Identifier, InstructionNode, OperandNode, ScriptId, StringLiteral,
    SwitchCase,
};
use cs2script::transpile::catalog::{
    ScriptCatalog, ScriptGroupId, ScriptMetadata, ScriptSignature, SignatureMap,
};
use cs2script::transpile::cfg::{
    build_cfg, detect_return_type, detect_return_type_with_signatures, emit_structured,
};
use cs2script::transpile::names::ScriptKind;
use cs2script::transpile::scope::NameTable;
use cs2script::transpile::structured::StructuredStmt;

#[test]
fn unconditional_branch_has_no_fallthrough_successor() {
    let instructions = vec![
        InstructionNode {
            index: 0,
            opcode: 0,
            command: "branch".to_string(),
            operand: OperandNode::Branch(2),
        },
        InstructionNode {
            index: 1,
            opcode: 0,
            command: "push_constant_string".to_string(),
            operand: OperandNode::Int(1),
        },
        InstructionNode {
            index: 2,
            opcode: 0,
            command: "return".to_string(),
            operand: OperandNode::Int(0),
        },
    ];

    let blocks = build_cfg(
        &instructions,
        &NameTable::new(),
        &NameTable::new(),
        &NameTable::new(),
        &ScriptCatalog::default(),
        &SignatureMap::new(),
    );
    let successor_starts = blocks[0]
        .successors
        .iter()
        .map(|&successor| blocks[successor].start)
        .collect::<Vec<_>>();

    assert_eq!(successor_starts, vec![2]);
}

#[test]
fn switch_fallthrough_has_own_block() {
    let instructions = vec![
        InstructionNode {
            index: 0,
            opcode: 0,
            command: "push_constant_string".to_string(),
            operand: OperandNode::Int(7),
        },
        InstructionNode {
            index: 1,
            opcode: 0,
            command: "switch".to_string(),
            operand: OperandNode::Switch(vec![SwitchCase {
                value: 1,
                target: 4,
            }]),
        },
        InstructionNode {
            index: 2,
            opcode: 0,
            command: "cam_reset".to_string(),
            operand: OperandNode::Byte(0),
        },
        InstructionNode {
            index: 3,
            opcode: 0,
            command: "branch".to_string(),
            operand: OperandNode::Branch(5),
        },
        InstructionNode {
            index: 4,
            opcode: 0,
            command: "return".to_string(),
            operand: OperandNode::Int(0),
        },
        InstructionNode {
            index: 5,
            opcode: 0,
            command: "return".to_string(),
            operand: OperandNode::Int(0),
        },
    ];

    let blocks = build_cfg(
        &instructions,
        &NameTable::new(),
        &NameTable::new(),
        &NameTable::new(),
        &ScriptCatalog::default(),
        &SignatureMap::new(),
    );
    let block_starts = blocks.iter().map(|block| block.start).collect::<Vec<_>>();
    let successor_starts = blocks[0]
        .successors
        .iter()
        .map(|&successor| blocks[successor].start)
        .collect::<Vec<_>>();

    assert_eq!(block_starts, vec![0, 2, 4, 5]);
    assert_eq!(successor_starts, vec![4, 2]);
}

#[test]
fn branch_to_return_block_uses_linear_form() {
    let instructions = vec![
        InstructionNode {
            index: 0,
            opcode: 0,
            command: "branch".to_string(),
            operand: OperandNode::Branch(2),
        },
        InstructionNode {
            index: 1,
            opcode: 0,
            command: "return".to_string(),
            operand: OperandNode::Int(0),
        },
        InstructionNode {
            index: 2,
            opcode: 0,
            command: "return".to_string(),
            operand: OperandNode::Int(0),
        },
    ];

    let blocks = build_cfg(
        &instructions,
        &NameTable::new(),
        &NameTable::new(),
        &NameTable::new(),
        &ScriptCatalog::default(),
        &SignatureMap::new(),
    );
    let structured = emit_structured(&blocks);

    assert!(matches!(
        structured.first(),
        Some(StructuredStmt::Goto { target: 2 })
    ));
    assert!(
        structured
            .iter()
            .any(|stmt| matches!(stmt, StructuredStmt::Label { target: 2 }))
    );
}

#[test]
fn detect_return_type_uses_string_return_values() {
    let structured = vec![StructuredStmt::Return {
        value: Some(Expression::StringLiteral(StringLiteral {
            value: "ok".to_string(),
        })),
    }];

    assert_eq!(detect_return_type(&structured), "string");
}

#[test]
fn detect_return_type_uses_homogeneous_stack_value_type() {
    let structured = vec![StructuredStmt::Return {
        value: Some(Expression::Call(CallExpr {
            callee: Box::new(Expression::Identifier(Identifier {
                name: "stack".to_string(),
            })),
            arguments: vec![
                Expression::Identifier(Identifier {
                    name: "local_obj_0".to_string(),
                }),
                Expression::StringLiteral(StringLiteral {
                    value: "ok".to_string(),
                }),
            ],
        })),
    }];

    assert_eq!(detect_return_type(&structured), "string");
}

#[test]
fn detect_return_type_ignores_void_calls_inside_stack_return() {
    let script_id = ScriptId(1);
    let mut catalog = ScriptCatalog::default();
    let signature = ScriptSignature {
        arg_count_int: 1,
        arg_count_obj: 0,
        arg_count_long: 0,
        return_count_int: 0,
        return_count_obj: 0,
        return_count_long: 0,
        return_type: "void".to_string(),
    };
    catalog.insert(ScriptMetadata {
        packed_id: script_id,
        group_id: ScriptGroupId(1),
        file_id: 0,
        kind: ScriptKind::Unknown,
        raw_name: None,
        short_name: "void_helper".to_string(),
        export_name: "void_helper".to_string(),
        module_name: "void_helper".to_string(),
        signature: signature.clone(),
    });
    let signatures = SignatureMap::from_pairs(vec![(script_id, signature)]);
    let structured = vec![StructuredStmt::Return {
        value: Some(Expression::Call(CallExpr {
            callee: Box::new(Expression::Identifier(Identifier {
                name: "stack".to_string(),
            })),
            arguments: vec![
                Expression::Call(CallExpr {
                    callee: Box::new(Expression::Identifier(Identifier {
                        name: "void_helper".to_string(),
                    })),
                    arguments: Vec::new(),
                }),
                Expression::StringLiteral(StringLiteral {
                    value: "ok".to_string(),
                }),
            ],
        })),
    }];

    assert_eq!(
        detect_return_type_with_signatures(&structured, &catalog, &signatures),
        "string"
    );
}

#[test]
fn predecessors_mirror_successors() {
    let node = |index: usize, command: &str, operand: OperandNode| InstructionNode {
        index,
        opcode: 0,
        command: command.to_string(),
        operand,
    };
    let instructions = vec![
        node(0, "push_constant_string", OperandNode::Int(7)),
        node(1, "switch", OperandNode::Switch(vec![SwitchCase { value: 1, target: 4 }, SwitchCase { value: 2, target: 4 }])),
        node(2, "cam_reset", OperandNode::Byte(0)),
        node(3, "branch", OperandNode::Branch(5)),
        node(4, "return", OperandNode::Int(0)),
        node(5, "return", OperandNode::Int(0)),
    ];
    let blocks = build_cfg(
        &instructions,
        &NameTable::new(),
        &NameTable::new(),
        &NameTable::new(),
        &ScriptCatalog::default(),
        &SignatureMap::new(),
    );
    for a in 0..blocks.len() {
        for c in 0..blocks.len() {
            let forward = blocks[a].successors.iter().filter(|&&s| s == c).count();
            let backward = blocks[c].predecessors.iter().filter(|&&p| p == a).count();
            assert_eq!(forward, backward);
        }
    }
}
