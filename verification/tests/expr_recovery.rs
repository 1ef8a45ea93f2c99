use cs2script::transpile::ast::{
    BigIntLiteral, BinaryOp, CallExpr, Expression, Identifier, InstructionNode, NumberLiteral,
    OperandNode, StringLiteral, SwitchCase, VarBitId, VarBitRefNode, VarId, VarRefNode,
};
use cs2script::transpile::catalog::{
    ScriptCatalog, ScriptGroupId, ScriptMetadata, ScriptSignature, SignatureMap,
};
use cs2script::transpile::ast::ScriptId;
use cs2script::transpile::effects::{opcode_stack_effect, opcode_stack_effect_for_build, EffectTables};
use cs2script::transpile::expr_recovery::{
    detect_return_type_from_recovered, detect_return_type_from_recovered_with_signatures,
    ExprRecovery, RecoveredStmt,
};
use cs2script::transpile::exprs::is_pop_call_expr;
use cs2script::transpile::names::ScriptKind;
use cs2script::transpile::scope::NameTable;
use cs2script::vars::VarDomain;

#[test]
fn invalid_join_string_count_fails_soft() {
    let instructions = vec![
        InstructionNode {
            index: 0,
            opcode: 0,
            command: "push_constant_string".to_string(),
            operand: OperandNode::String("hello".to_string()),
        },
        InstructionNode {
            index: 1,
            opcode: 0,
            command: "join_string".to_string(),
            operand: OperandNode::Count(1_543_595_008),
        },
        InstructionNode {
            index: 2,
            opcode: 0,
            command: "return".to_string(),
            operand: OperandNode::Int(0),
        },
    ];

    let recovered = ExprRecovery::new(
        &instructions,
        &NameTable::new(),
        &NameTable::new(),
        &NameTable::new(),
        &ScriptCatalog::default(),
        &SignatureMap::new(),
    )
    .recover();

    assert!(matches!(
        &recovered[1],
        Some(RecoveredStmt::Comment(text)) if text.contains("invalid join_string count")
    ));
    assert!(matches!(
        &recovered[2],
        Some(RecoveredStmt::Return(Some(_)))
    ));
}

#[test]
fn define_array_consumes_size_argument_in_recovered_call() {
    let instructions = vec![
        InstructionNode {
            index: 0,
            opcode: 0,
            command: "push_constant_string".to_string(),
            operand: OperandNode::Int(4),
        },
        InstructionNode {
            index: 1,
            opcode: 0,
            command: "define_array".to_string(),
            operand: OperandNode::Array(0),
        },
    ];

    let recovered = ExprRecovery::new(
        &instructions,
        &NameTable::new(),
        &NameTable::new(),
        &NameTable::new(),
        &ScriptCatalog::default(),
        &SignatureMap::new(),
    )
    .recover();

    assert!(matches!(
        &recovered[1],
        Some(RecoveredStmt::Expression(Expression::Call(call)))
            if matches!(&*call.callee, Expression::Identifier(identifier) if identifier.name == "define_array_0")
                && call.arguments.len() == 1
    ));
}

#[test]
fn leave_index_array_read_recovers_explicit_pseudo_call() {
    let instructions = vec![
        InstructionNode {
            index: 0,
            opcode: 0,
            command: "push_int_local".to_string(),
            operand: OperandNode::Local(12),
        },
        InstructionNode {
            index: 1,
            opcode: 0,
            command: "push_array_int_leave_index_on_stack".to_string(),
            operand: OperandNode::Array(2),
        },
        InstructionNode {
            index: 2,
            opcode: 0,
            command: "push_int_local".to_string(),
            operand: OperandNode::Local(27),
        },
        InstructionNode {
            index: 3,
            opcode: 0,
            command: "add".to_string(),
            operand: OperandNode::Byte(0),
        },
        InstructionNode {
            index: 4,
            opcode: 0,
            command: "pop_array_int".to_string(),
            operand: OperandNode::Array(2),
        },
    ];

    let recovered = ExprRecovery::new(
        &instructions,
        &NameTable::new(),
        &NameTable::new(),
        &NameTable::new(),
        &ScriptCatalog::default(),
        &SignatureMap::new(),
    )
    .recover();

    assert!(matches!(
        &recovered[4],
        Some(RecoveredStmt::Assignment {
            target,
            value: Expression::BinaryOperation(binary),
            ..
        }) if target == "array_2[pop()]"
            && matches!(
                &*binary.left,
                Expression::Call(call)
                    if matches!(
                        &*call.callee,
                        Expression::Identifier(identifier)
                            if identifier.name == "push_array_int_leave_index_on_stack_2"
                    )
            )
    ));
}

#[test]
fn branch_not_recovers_binary_not_equals_condition() {
    let instructions = vec![
        InstructionNode {
            index: 0,
            opcode: 0,
            command: "push_int_local".to_string(),
            operand: OperandNode::Local(1),
        },
        InstructionNode {
            index: 1,
            opcode: 0,
            command: "push_constant_string".to_string(),
            operand: OperandNode::Int(-1),
        },
        InstructionNode {
            index: 2,
            opcode: 0,
            command: "branch_not".to_string(),
            operand: OperandNode::Branch(7),
        },
    ];

    let recovered = ExprRecovery::new(
        &instructions,
        &NameTable::new(),
        &NameTable::new(),
        &NameTable::new(),
        &ScriptCatalog::default(),
        &SignatureMap::new(),
    )
    .recover();

    assert!(matches!(
        &recovered[2],
        Some(RecoveredStmt::BranchBinary {
            op: BinaryOp::Ne,
            left,
            right,
            target: 7,
        }) if matches!(left, Expression::Identifier(identifier) if identifier.name == "local_int_1")
            && matches!(right, Expression::NumberLiteral(number) if number.value == -1)
    ));
}

#[test]
fn branch_preserves_pending_stack_values_for_stack_goto() {
    let instructions = vec![
        InstructionNode {
            index: 0,
            opcode: 0,
            command: "push_constant_string".to_string(),
            operand: OperandNode::Int(18),
        },
        InstructionNode {
            index: 1,
            opcode: 0,
            command: "push_constant_string".to_string(),
            operand: OperandNode::Int(1),
        },
        InstructionNode {
            index: 2,
            opcode: 0,
            command: "branch".to_string(),
            operand: OperandNode::Branch(9),
        },
    ];

    let recovered = ExprRecovery::new(
        &instructions,
        &NameTable::new(),
        &NameTable::new(),
        &NameTable::new(),
        &ScriptCatalog::default(),
        &SignatureMap::new(),
    )
    .recover();

    match &recovered[2] {
        Some(RecoveredStmt::GotoStack { target, values }) => {
            assert_eq!(*target, 9);
            assert_eq!(values.len(), 2);
            assert!(
                matches!(&values[0], Expression::NumberLiteral(value) if value.value == 18)
            );
            assert!(matches!(&values[1], Expression::NumberLiteral(value) if value.value == 1));
        }
        other => panic!("expected stack-preserving goto, got {other:?}"),
    }
}

#[test]
fn switch_preserves_pending_stack_values_before_discriminant() {
    let instructions = vec![
        InstructionNode {
            index: 0,
            opcode: 0,
            command: "unknown_command_20".to_string(),
            operand: OperandNode::Byte(0),
        },
        InstructionNode {
            index: 1,
            opcode: 0,
            command: "push_constant_string".to_string(),
            operand: OperandNode::Int(2),
        },
        InstructionNode {
            index: 2,
            opcode: 0,
            command: "switch".to_string(),
            operand: OperandNode::Switch(vec![SwitchCase {
                value: 2,
                target: 4,
            }]),
        },
        InstructionNode {
            index: 3,
            opcode: 0,
            command: "return".to_string(),
            operand: OperandNode::Byte(0),
        },
    ];

    let recovered = ExprRecovery::new(
        &instructions,
        &NameTable::new(),
        &NameTable::new(),
        &NameTable::new(),
        &ScriptCatalog::default(),
        &SignatureMap::new(),
    )
    .recover();

    assert!(matches!(
        &recovered[2],
        Some(RecoveredStmt::Switch {
            discriminant: Expression::Call(call),
            ..
        }) if matches!(&*call.callee, Expression::Identifier(identifier) if identifier.name == "stackpush_then")
            && call.arguments.len() == 2
    ));
    assert!(matches!(
        &recovered[3],
        Some(RecoveredStmt::Return(Some(Expression::Call(call))))
            if is_pop_call_expr(&Expression::Call(call.clone()))
    ));
}

#[test]
fn void_gosub_preserves_existing_stack_values_before_call() {
    let value_signature = ScriptSignature {
        arg_count_int: 1,
        arg_count_obj: 0,
        arg_count_long: 0,
        return_count_int: 1,
        return_count_obj: 0,
        return_count_long: 0,
        return_type: "number".to_string(),
    };
    let void_signature = ScriptSignature {
        arg_count_int: 1,
        arg_count_obj: 0,
        arg_count_long: 0,
        return_count_int: 0,
        return_count_obj: 0,
        return_count_long: 0,
        return_type: "void".to_string(),
    };
    let mut catalog = ScriptCatalog::default();
    catalog.insert(ScriptMetadata {
        packed_id: ScriptId(1),
        group_id: ScriptGroupId(1),
        file_id: 0,
        kind: ScriptKind::Unknown,
        raw_name: None,
        short_name: "value_helper".to_string(),
        export_name: "value_helper".to_string(),
        module_name: "value_helper".to_string(),
        signature: value_signature.clone(),
    });
    catalog.insert(ScriptMetadata {
        packed_id: ScriptId(2),
        group_id: ScriptGroupId(2),
        file_id: 0,
        kind: ScriptKind::Unknown,
        raw_name: None,
        short_name: "void_helper".to_string(),
        export_name: "void_helper".to_string(),
        module_name: "void_helper".to_string(),
        signature: void_signature.clone(),
    });
    let signatures = SignatureMap::from_pairs(vec![
        (ScriptId(1), value_signature),
        (ScriptId(2), void_signature),
    ]);
    let instructions = vec![
        InstructionNode {
            index: 0,
            opcode: 0,
            command: "push_constant_string".to_string(),
            operand: OperandNode::Int(7),
        },
        InstructionNode {
            index: 1,
            opcode: 0,
            command: "gosub_with_params".to_string(),
            operand: OperandNode::Script(1),
        },
        InstructionNode {
            index: 2,
            opcode: 0,
            command: "push_constant_string".to_string(),
            operand: OperandNode::Int(8),
        },
        InstructionNode {
            index: 3,
            opcode: 0,
            command: "gosub_with_params".to_string(),
            operand: OperandNode::Script(2),
        },
        InstructionNode {
            index: 4,
            opcode: 0,
            command: "return".to_string(),
            operand: OperandNode::Byte(0),
        },
    ];

    let recovered = ExprRecovery::new(
        &instructions,
        &NameTable::new(),
        &NameTable::new(),
        &NameTable::new(),
        &catalog,
        &signatures,
    )
    .recover();

    assert!(matches!(
        &recovered[3],
        Some(RecoveredStmt::Expression(Expression::Call(call)))
            if matches!(&*call.callee, Expression::Identifier(identifier) if identifier.name == "stackpush_then")
                && call.arguments.len() == 2
    ));
    assert!(matches!(
        &recovered[4],
        Some(RecoveredStmt::Return(Some(Expression::Call(call))))
            if is_pop_call_expr(&Expression::Call(call.clone()))
    ));
}

#[test]
fn generic_ui_store_preserves_pending_legacy_value_call() {
    let legacy_value_signature = ScriptSignature {
        arg_count_int: 2,
        arg_count_obj: 0,
        arg_count_long: 0,
        return_count_int: 0,
        return_count_obj: 0,
        return_count_long: 0,
        return_type: "number".to_string(),
    };
    let mut catalog = ScriptCatalog::default();
    catalog.insert(ScriptMetadata {
        packed_id: ScriptId(1),
        group_id: ScriptGroupId(1),
        file_id: 0,
        kind: ScriptKind::Unknown,
        raw_name: None,
        short_name: "legacy_value".to_string(),
        export_name: "legacy_value".to_string(),
        module_name: "legacy_value".to_string(),
        signature: legacy_value_signature.clone(),
    });
    let signatures = SignatureMap::from_pairs(vec![(ScriptId(1), legacy_value_signature)]);
    let instructions = vec![
        InstructionNode {
            index: 0,
            opcode: 0,
            command: "push_constant_string".to_string(),
            operand: OperandNode::Int(1),
        },
        InstructionNode {
            index: 1,
            opcode: 0,
            command: "push_int_local".to_string(),
            operand: OperandNode::Local(0),
        },
        InstructionNode {
            index: 2,
            opcode: 0,
            command: "gosub_with_params".to_string(),
            operand: OperandNode::Script(1),
        },
        InstructionNode {
            index: 3,
            opcode: 0,
            command: "push_constant_string".to_string(),
            operand: OperandNode::Int(0),
        },
        InstructionNode {
            index: 4,
            opcode: 0,
            command: "push_int_local".to_string(),
            operand: OperandNode::Local(1),
        },
        InstructionNode {
            index: 5,
            opcode: 0,
            command: "if_sethide".to_string(),
            operand: OperandNode::Byte(0),
        },
        InstructionNode {
            index: 6,
            opcode: 0,
            command: "return".to_string(),
            operand: OperandNode::Byte(0),
        },
    ];

    let recovered = ExprRecovery::new(
        &instructions,
        &NameTable::new(),
        &NameTable::new(),
        &NameTable::new(),
        &catalog,
        &signatures,
    )
    .recover();

    assert!(matches!(
        &recovered[5],
        Some(RecoveredStmt::Expression(Expression::Call(call)))
            if matches!(&*call.callee, Expression::Identifier(identifier) if identifier.name == "stackpush_then")
                && matches!(call.arguments.first(), Some(Expression::Call(pending))
                    if matches!(&*pending.callee, Expression::Identifier(identifier) if identifier.name == "legacy_value"))
    ));
}

#[test]
fn value_gosub_before_targeted_return_recovers_push_and_return_pop() {
    let signature = ScriptSignature {
        arg_count_int: 1,
        arg_count_obj: 0,
        arg_count_long: 0,
        return_count_int: 1,
        return_count_obj: 0,
        return_count_long: 0,
        return_type: "number".to_string(),
    };
    let mut catalog = ScriptCatalog::default();
    catalog.insert(ScriptMetadata {
        packed_id: ScriptId(1),
        group_id: ScriptGroupId(1),
        file_id: 0,
        kind: ScriptKind::Unknown,
        raw_name: None,
        short_name: "value_helper".to_string(),
        export_name: "value_helper".to_string(),
        module_name: "value_helper".to_string(),
        signature: signature.clone(),
    });
    let signatures = SignatureMap::from_pairs(vec![(ScriptId(1), signature)]);
    let instructions = vec![
        InstructionNode {
            index: 0,
            opcode: 0,
            command: "branch".to_string(),
            operand: OperandNode::Branch(3),
        },
        InstructionNode {
            index: 1,
            opcode: 0,
            command: "push_constant_string".to_string(),
            operand: OperandNode::Int(7),
        },
        InstructionNode {
            index: 2,
            opcode: 0,
            command: "gosub_with_params".to_string(),
            operand: OperandNode::Script(1),
        },
        InstructionNode {
            index: 3,
            opcode: 0,
            command: "return".to_string(),
            operand: OperandNode::Byte(0),
        },
    ];

    let recovered = ExprRecovery::new(
        &instructions,
        &NameTable::new(),
        &NameTable::new(),
        &NameTable::new(),
        &catalog,
        &signatures,
    )
    .recover();

    assert!(matches!(
        &recovered[2],
        Some(RecoveredStmt::Expression(Expression::Call(call)))
            if matches!(&*call.callee, Expression::Identifier(identifier) if identifier.name == "push")
    ));
    assert!(matches!(
        &recovered[3],
        Some(RecoveredStmt::Return(Some(Expression::Call(call))))
            if is_pop_call_expr(&Expression::Call(call.clone()))
    ));
}

#[test]
fn multi_return_gosub_supplies_multiple_later_arguments() {
    let producer_signature = ScriptSignature {
        arg_count_int: 1,
        arg_count_obj: 0,
        arg_count_long: 0,
        return_count_int: 3,
        return_count_obj: 0,
        return_count_long: 0,
        return_type: "number".to_string(),
    };
    let consumer_signature = ScriptSignature {
        arg_count_int: 5,
        arg_count_obj: 0,
        arg_count_long: 0,
        return_count_int: 0,
        return_count_obj: 1,
        return_count_long: 0,
        return_type: "string".to_string(),
    };
    let mut catalog = ScriptCatalog::default();
    catalog.insert(ScriptMetadata {
        packed_id: ScriptId(1),
        group_id: ScriptGroupId(1),
        file_id: 0,
        kind: ScriptKind::Unknown,
        raw_name: None,
        short_name: "producer".to_string(),
        export_name: "producer".to_string(),
        module_name: "producer".to_string(),
        signature: producer_signature.clone(),
    });
    catalog.insert(ScriptMetadata {
        packed_id: ScriptId(2),
        group_id: ScriptGroupId(2),
        file_id: 0,
        kind: ScriptKind::Unknown,
        raw_name: None,
        short_name: "consumer".to_string(),
        export_name: "consumer".to_string(),
        module_name: "consumer".to_string(),
        signature: consumer_signature.clone(),
    });
    let signatures = SignatureMap::from_pairs(vec![
        (ScriptId(1), producer_signature),
        (ScriptId(2), consumer_signature),
    ]);
    let instructions = vec![
        InstructionNode {
            index: 0,
            opcode: 0,
            command: "push_constant_string".to_string(),
            operand: OperandNode::String("Score: ".to_string()),
        },
        InstructionNode {
            index: 1,
            opcode: 0,
            command: "push_int_local".to_string(),
            operand: OperandNode::Local(0),
        },
        InstructionNode {
            index: 2,
            opcode: 0,
            command: "gosub_with_params".to_string(),
            operand: OperandNode::Script(1),
        },
        InstructionNode {
            index: 3,
            opcode: 0,
            command: "push_constant_string".to_string(),
            operand: OperandNode::Int(1),
        },
        InstructionNode {
            index: 4,
            opcode: 0,
            command: "push_constant_string".to_string(),
            operand: OperandNode::Int(0),
        },
        InstructionNode {
            index: 5,
            opcode: 0,
            command: "gosub_with_params".to_string(),
            operand: OperandNode::Script(2),
        },
        InstructionNode {
            index: 6,
            opcode: 0,
            command: "join_string".to_string(),
            operand: OperandNode::Count(2),
        },
        InstructionNode {
            index: 7,
            opcode: 0,
            command: "return".to_string(),
            operand: OperandNode::Byte(0),
        },
    ];

    let recovered = ExprRecovery::new(
        &instructions,
        &NameTable::new(),
        &NameTable::new(),
        &NameTable::new(),
        &catalog,
        &signatures,
    )
    .recover();

    let Some(RecoveredStmt::Return(Some(Expression::Call(concat)))) = &recovered[7] else {
        panic!("expected concat return");
    };
    assert_eq!(concat.arguments.len(), 2);
    let Expression::Call(consumer) = &concat.arguments[1] else {
        panic!("expected consumer call");
    };
    assert_eq!(consumer.arguments.len(), 3);
    assert!(matches!(
        &consumer.arguments[0],
        Expression::Call(call)
            if matches!(&*call.callee, Expression::Identifier(identifier) if identifier.name == "producer")
    ));
}

#[test]
fn local_assignment_preserves_pending_stack_values_before_store() {
    let instructions = vec![
        InstructionNode {
            index: 0,
            opcode: 0,
            command: "push_int_local".to_string(),
            operand: OperandNode::Local(1),
        },
        InstructionNode {
            index: 1,
            opcode: 0,
            command: "push_constant_string".to_string(),
            operand: OperandNode::Int(5),
        },
        InstructionNode {
            index: 2,
            opcode: 0,
            command: "push_int_local".to_string(),
            operand: OperandNode::Local(3),
        },
        InstructionNode {
            index: 3,
            opcode: 0,
            command: "push_constant_string".to_string(),
            operand: OperandNode::Int(1),
        },
        InstructionNode {
            index: 4,
            opcode: 0,
            command: "add".to_string(),
            operand: OperandNode::Byte(0),
        },
        InstructionNode {
            index: 5,
            opcode: 0,
            command: "pop_int_local".to_string(),
            operand: OperandNode::Local(3),
        },
    ];

    let recovered = ExprRecovery::new(
        &instructions,
        &NameTable::new(),
        &NameTable::new(),
        &NameTable::new(),
        &ScriptCatalog::default(),
        &SignatureMap::new(),
    )
    .recover();

    assert!(matches!(
        &recovered[5],
        Some(RecoveredStmt::Expression(Expression::Call(call)))
            if matches!(&*call.callee, Expression::Identifier(identifier) if identifier.name == "stackpush_then")
                && call.arguments.len() == 3
                && matches!(call.arguments.last(), Some(Expression::Call(inner))
                    if matches!(&*inner.callee, Expression::Identifier(identifier) if identifier.name == "stackassign_1"))
    ));
}

#[test]
fn var_assignment_preserves_pending_stack_values_before_store() {
    let instructions = vec![
        InstructionNode {
            index: 0,
            opcode: 0,
            command: "push_int_local".to_string(),
            operand: OperandNode::Local(0),
        },
        InstructionNode {
            index: 1,
            opcode: 0,
            command: "push_constant_string".to_string(),
            operand: OperandNode::Int(-1),
        },
        InstructionNode {
            index: 2,
            opcode: 0,
            command: "pop_var".to_string(),
            operand: OperandNode::VarRef(VarRefNode {
                domain: VarDomain::Client,
                id: VarId(6908),
                name: Some("varclient_6908".to_string()),
                is_transmog: false,
            }),
        },
    ];

    let recovered = ExprRecovery::new(
        &instructions,
        &NameTable::new(),
        &NameTable::new(),
        &NameTable::new(),
        &ScriptCatalog::default(),
        &SignatureMap::new(),
    )
    .recover();

    assert!(matches!(
        &recovered[2],
        Some(RecoveredStmt::Expression(Expression::Call(call)))
            if matches!(&*call.callee, Expression::Identifier(identifier) if identifier.name == "stackpush_then")
                && call.arguments.len() == 2
                && matches!(call.arguments.last(), Some(Expression::Call(inner))
                    if matches!(&*inner.callee, Expression::Identifier(identifier) if identifier.name == "stackassign_1")
                        && matches!(inner.arguments.first(), Some(Expression::StringLiteral(StringLiteral { value })) if value == "varclient_6908"))
    ));
}

#[test]
fn long_branch_recovers_binary_condition() {
    let instructions = vec![
        InstructionNode {
            index: 0,
            opcode: 0,
            command: "push_long_local".to_string(),
            operand: OperandNode::Local(0),
        },
        InstructionNode {
            index: 1,
            opcode: 0,
            command: "push_constant_string".to_string(),
            operand: OperandNode::Long(1),
        },
        InstructionNode {
            index: 2,
            opcode: 0,
            command: "long_branch_equals".to_string(),
            operand: OperandNode::Branch(4),
        },
    ];

    let recovered = ExprRecovery::new(
        &instructions,
        &NameTable::new(),
        &NameTable::new(),
        &NameTable::new(),
        &ScriptCatalog::default(),
        &SignatureMap::new(),
    )
    .recover();

    assert!(matches!(
        &recovered[2],
        Some(RecoveredStmt::BranchBinary {
            op: BinaryOp::Eq,
            left,
            right,
            target: 4,
        }) if matches!(left, Expression::Identifier(identifier) if identifier.name == "local_long_0")
            && matches!(right, Expression::Call(call)
                if matches!(&*call.callee, Expression::Identifier(identifier) if identifier.name == "longconst")
                    && matches!(call.arguments.as_slice(), [Expression::BigIntLiteral(BigIntLiteral { value: 1 })]))
    ));
}

#[test]
fn consecutive_local_pops_recover_as_stackassign() {
    let instructions = vec![
        InstructionNode {
            index: 0,
            opcode: 0,
            command: "push_constant_string".to_string(),
            operand: OperandNode::Int(20),
        },
        InstructionNode {
            index: 1,
            opcode: 0,
            command: "push_constant_string".to_string(),
            operand: OperandNode::Int(40),
        },
        InstructionNode {
            index: 2,
            opcode: 0,
            command: "pop_int_local".to_string(),
            operand: OperandNode::Local(3),
        },
        InstructionNode {
            index: 3,
            opcode: 0,
            command: "pop_int_local".to_string(),
            operand: OperandNode::Local(2),
        },
    ];

    let recovered = ExprRecovery::new(
        &instructions,
        &NameTable::new(),
        &NameTable::new(),
        &NameTable::new(),
        &ScriptCatalog::default(),
        &SignatureMap::new(),
    )
    .recover();

    assert!(matches!(
        &recovered[2],
        Some(RecoveredStmt::Expression(Expression::Call(call)))
            if matches!(&*call.callee, Expression::Identifier(identifier) if identifier.name == "stackassign_2")
                && matches!(call.arguments.as_slice(), [
                    Expression::StringLiteral(StringLiteral { value: target_0 }),
                    Expression::StringLiteral(StringLiteral { value: target_1 }),
                    Expression::NumberLiteral(NumberLiteral { value: 20 }),
                    Expression::NumberLiteral(NumberLiteral { value: 40 }),
                ] if target_0 == "local_int_3" && target_1 == "local_int_2")
    ));
    assert!(recovered[3].is_none());
}

#[test]
fn consecutive_varbit_pops_recover_as_stackassign() {
    let instructions = vec![
        InstructionNode {
            index: 0,
            opcode: 0,
            command: "push_constant_string".to_string(),
            operand: OperandNode::Int(20),
        },
        InstructionNode {
            index: 1,
            opcode: 0,
            command: "push_constant_string".to_string(),
            operand: OperandNode::Int(40),
        },
        InstructionNode {
            index: 2,
            opcode: 0,
            command: "pop_varbit".to_string(),
            operand: OperandNode::VarBitRef(VarBitRefNode {
                id: VarBitId(7058),
                name: Some("varplayerbit_7058".to_string()),
                is_transmog: false,
            }),
        },
        InstructionNode {
            index: 3,
            opcode: 0,
            command: "pop_varbit".to_string(),
            operand: OperandNode::VarBitRef(VarBitRefNode {
                id: VarBitId(7057),
                name: Some("varplayerbit_7057".to_string()),
                is_transmog: false,
            }),
        },
    ];

    let recovered = ExprRecovery::new(
        &instructions,
        &NameTable::new(),
        &NameTable::new(),
        &NameTable::new(),
        &ScriptCatalog::default(),
        &SignatureMap::new(),
    )
    .recover();

    assert!(matches!(
        &recovered[2],
        Some(RecoveredStmt::Expression(Expression::Call(call)))
            if matches!(&*call.callee, Expression::Identifier(identifier) if identifier.name == "stackassign_2")
                && matches!(call.arguments.as_slice(), [
                    Expression::StringLiteral(StringLiteral { value: target_0 }),
                    Expression::StringLiteral(StringLiteral { value: target_1 }),
                    Expression::NumberLiteral(NumberLiteral { value: 20 }),
                    Expression::NumberLiteral(NumberLiteral { value: 40 }),
                ] if target_0 == "varplayerbit_7058" && target_1 == "varplayerbit_7057")
    ));
    assert!(recovered[3].is_none());
}

#[test]
fn push_constant_int_recovers_legacy_intconst_call() {
    let instructions = vec![
        InstructionNode {
            index: 0,
            opcode: 0,
            command: "push_constant_int".to_string(),
            operand: OperandNode::Int(16),
        },
        InstructionNode {
            index: 1,
            opcode: 0,
            command: "return".to_string(),
            operand: OperandNode::Byte(0),
        },
    ];

    let recovered = ExprRecovery::new(
        &instructions,
        &NameTable::new(),
        &NameTable::new(),
        &NameTable::new(),
        &ScriptCatalog::default(),
        &SignatureMap::new(),
    )
    .recover();

    assert!(matches!(
        &recovered[1],
        Some(RecoveredStmt::Return(Some(Expression::Call(call))))
            if matches!(&*call.callee, Expression::Identifier(identifier) if identifier.name == "intconst")
                && matches!(&call.arguments[0], Expression::NumberLiteral(number) if number.value == 16)
    ));
}

#[test]
fn typed_long_constant_recovers_longconst_call() {
    let instructions = vec![
        InstructionNode {
            index: 0,
            opcode: 0,
            command: "push_constant_string".to_string(),
            operand: OperandNode::Long(0),
        },
        InstructionNode {
            index: 1,
            opcode: 0,
            command: "return".to_string(),
            operand: OperandNode::Byte(0),
        },
    ];

    let recovered = ExprRecovery::new(
        &instructions,
        &NameTable::new(),
        &NameTable::new(),
        &NameTable::new(),
        &ScriptCatalog::default(),
        &SignatureMap::new(),
    )
    .recover();

    assert!(matches!(
        &recovered[1],
        Some(RecoveredStmt::Return(Some(Expression::Call(call))))
            if matches!(&*call.callee, Expression::Identifier(identifier) if identifier.name == "longconst")
                && matches!(&call.arguments[0], Expression::BigIntLiteral(bigint) if bigint.value == 0)
    ));
}

#[test]
fn manual_opcode_effects_cover_misc_residual_signatures() {
    let clear_hooks =
        opcode_stack_effect("cc_clearscripthooks", &EffectTables::new()).expect("cc clear hooks effect");
    let object_desc = opcode_stack_effect("oc_desc", &EffectTables::new()).expect("object desc effect");
    let inventory_stockbase =
        opcode_stack_effect("inv_stockbase", &EffectTables::new()).expect("inventory stockbase effect");
    let interface_vflip = opcode_stack_effect("if_setvflip", &EffectTables::new()).expect("if vflip effect");
    let steam_achievement =
        opcode_stack_effect("steam_setachievement", &EffectTables::new()).expect("steam achievement effect");
    let npc_custom_head =
        opcode_stack_effect("if_npc_setcustomheadmodel", &EffectTables::new()).expect("if npc custom head effect");
    let camera_axis =
        opcode_stack_effect("cam2_setpositionacceleration_axis", &EffectTables::new()).expect("camera axis effect");
    let custom_body_retex =
        opcode_stack_effect("cc_setcustombodyretex", &EffectTables::new()).expect("cc custom retex effect");
    let store_lookup = opcode_stack_effect("store_lookup", &EffectTables::new()).expect("store lookup effect");
    let field6563 = opcode_stack_effect("field6563", &EffectTables::new()).expect("field6563 effect");
    let struct_param = opcode_stack_effect("struct_param", &EffectTables::new()).expect("struct param effect");
    let camera_depth = opcode_stack_effect("cam2_setdepthplanes", &EffectTables::new()).expect("camera depth effect");
    let char_index = opcode_stack_effect("if_getcharindexatpos", &EffectTables::new()).expect("if char index effect");
    let bounding_box =
        opcode_stack_effect("get_entity_bounding_box", &EffectTables::new()).expect("entity bounding box effect");
    let worldmap_coord = opcode_stack_effect("worldmap_3dview_getcoordfine", &EffectTables::new())
        .expect("world map coord fine effect");
    let resume_long =
        opcode_stack_effect("resume_countdialog_long", &EffectTables::new()).expect("resume long effect");
    let marketing_event = opcode_stack_effect("marketing_sendanalyticsevent", &EffectTables::new())
        .expect("marketing analytics effect");
    let highlight_scale =
        opcode_stack_effect("highlight_set_category_scale", &EffectTables::new()).expect("highlight scale effect");
    let highlight_silhouette = opcode_stack_effect("highlight_set_localplayer_silhouette_mode", &EffectTables::new())
        .expect("highlight silhouette effect");
    let unknown_65 = opcode_stack_effect("unknown_command_65", &EffectTables::new()).expect("unknown 65 effect");
    let legacy_detail = opcode_stack_effect("field5283", &EffectTables::new()).expect("legacy detail effect");
    let field6317 = opcode_stack_effect("field6317", &EffectTables::new()).expect("field6317 effect");

    assert_eq!((clear_hooks.int_pops, clear_hooks.int_pushes), (0, 0));
    assert_eq!((field6563.int_pops, field6563.int_pushes), (0, 1));
    assert_eq!((struct_param.int_pops, struct_param.int_pushes), (2, 1));
    assert_eq!((camera_depth.int_pops, camera_depth.int_pushes), (2, 0));
    assert_eq!((char_index.int_pops, char_index.int_pushes), (3, 1));
    assert_eq!((bounding_box.int_pops, bounding_box.int_pushes), (0, 5));
    assert_eq!((worldmap_coord.int_pops, worldmap_coord.int_pushes), (3, 1));
    assert_eq!((resume_long.obj_pops, resume_long.int_pushes), (1, 0));
    assert_eq!(
        (marketing_event.obj_pops, marketing_event.int_pushes),
        (1, 0)
    );
    assert_eq!(
        (highlight_scale.int_pops, highlight_scale.int_pushes),
        (2, 0)
    );
    assert_eq!(
        (
            highlight_silhouette.int_pops,
            highlight_silhouette.int_pushes,
        ),
        (1, 0)
    );
    assert_eq!((unknown_65.int_pops, unknown_65.int_pushes), (1, 0));
    assert_eq!((legacy_detail.int_pops, legacy_detail.int_pushes), (1, 1));
    assert_eq!((field6317.int_pops, field6317.int_pushes), (1, 0));
    assert_eq!(
        (inventory_stockbase.int_pops, inventory_stockbase.int_pushes),
        (2, 1)
    );
    assert_eq!(
        (interface_vflip.int_pops, interface_vflip.int_pushes),
        (2, 0)
    );
    assert_eq!(
        (
            object_desc.int_pops,
            object_desc.obj_pops,
            object_desc.int_pushes,
            object_desc.obj_pushes,
        ),
        (1, 0, 0, 1)
    );
    assert_eq!(
        (
            steam_achievement.int_pops,
            steam_achievement.obj_pops,
            steam_achievement.int_pushes,
            steam_achievement.obj_pushes,
        ),
        (2, 1, 1, 0)
    );
    assert_eq!(
        (npc_custom_head.int_pops, npc_custom_head.int_pushes),
        (3, 0)
    );
    assert_eq!((camera_axis.int_pops, camera_axis.int_pushes), (4, 0));
    assert_eq!(
        (custom_body_retex.int_pops, custom_body_retex.int_pushes),
        (4, 0)
    );
    assert_eq!(
        (
            store_lookup.int_pops,
            store_lookup.obj_pops,
            store_lookup.int_pushes,
            store_lookup.long_pushes,
        ),
        (1, 1, 10, 3)
    );
}

#[test]
fn interface_option_commands_use_payload_stack_effects() {
    let effect = opcode_stack_effect("if_setop", &EffectTables::new())
        .expect("if_setop should use full option payload stack effect");
    let key_effect = opcode_stack_effect("if_setopkey", &EffectTables::new())
        .expect("if_setopkey should use full key payload stack effect");

    assert_eq!(
        (
            effect.int_pops,
            effect.obj_pops,
            effect.long_pops,
            effect.int_pushes,
            effect.obj_pushes,
            effect.long_pushes,
        ),
        (2, 1, 0, 0, 0, 0)
    );
    assert_eq!(
        (
            key_effect.int_pops,
            key_effect.obj_pops,
            key_effect.long_pops,
            key_effect.int_pushes,
            key_effect.obj_pushes,
            key_effect.long_pushes,
        ),
        (4, 0, 0, 0, 0, 0)
    );
}

#[test]
fn if_setop_recovers_option_text_and_component() {
    let instructions = vec![
        InstructionNode {
            index: 0,
            opcode: 0,
            command: "push_constant_string".to_string(),
            operand: OperandNode::Int(1),
        },
        InstructionNode {
            index: 1,
            opcode: 0,
            command: "push_constant_string".to_string(),
            operand: OperandNode::String(String::new()),
        },
        InstructionNode {
            index: 2,
            opcode: 0,
            command: "push_constant_string".to_string(),
            operand: OperandNode::Int(83_230_736),
        },
        InstructionNode {
            index: 3,
            opcode: 0,
            command: "if_setop".to_string(),
            operand: OperandNode::Byte(0),
        },
    ];

    let recovered = ExprRecovery::new(
        &instructions,
        &NameTable::new(),
        &NameTable::new(),
        &NameTable::new(),
        &ScriptCatalog::default(),
        &SignatureMap::new(),
    )
    .recover();

    assert!(matches!(
        &recovered[3],
        Some(RecoveredStmt::Expression(Expression::Call(call)))
            if matches!(&*call.callee, Expression::Identifier(identifier) if identifier.name == "UI.Setop")
                && call.arguments.len() == 3
                && matches!(&call.arguments[1], Expression::StringLiteral(value) if value.value.is_empty())
    ));
}

#[test]
fn interface_createchild_recovers_full_payload() {
    let instructions = vec![
        InstructionNode {
            index: 0,
            opcode: 0,
            command: "push_constant_string".to_string(),
            operand: OperandNode::Int(10),
        },
        InstructionNode {
            index: 1,
            opcode: 0,
            command: "push_int_local".to_string(),
            operand: OperandNode::Local(1),
        },
        InstructionNode {
            index: 2,
            opcode: 0,
            command: "push_int_local".to_string(),
            operand: OperandNode::Local(2),
        },
        InstructionNode {
            index: 3,
            opcode: 0,
            command: "push_int_local".to_string(),
            operand: OperandNode::Local(0),
        },
        InstructionNode {
            index: 4,
            opcode: 0,
            command: "if_createchild".to_string(),
            operand: OperandNode::Byte(0),
        },
        InstructionNode {
            index: 5,
            opcode: 0,
            command: "return".to_string(),
            operand: OperandNode::Byte(0),
        },
    ];

    let recovered = ExprRecovery::new(
        &instructions,
        &NameTable::new(),
        &NameTable::new(),
        &NameTable::new(),
        &ScriptCatalog::default(),
        &SignatureMap::new(),
    )
    .recover();

    assert!(matches!(
        &recovered[4],
        Some(RecoveredStmt::Expression(Expression::Call(call)))
            if matches!(&*call.callee, Expression::Identifier(id) if id.name == "UI.Createchild")
                && call.arguments.len() == 4
    ));
    assert!(matches!(&recovered[5], Some(RecoveredStmt::Return(None))));
}

#[test]
fn interface_single_payload_methods_recover_component_argument() {
    let instructions = vec![
        InstructionNode {
            index: 0,
            opcode: 0,
            command: "push_int_local".to_string(),
            operand: OperandNode::Local(1),
        },
        InstructionNode {
            index: 1,
            opcode: 0,
            command: "push_int_local".to_string(),
            operand: OperandNode::Local(0),
        },
        InstructionNode {
            index: 2,
            opcode: 0,
            command: "if_setnpchead".to_string(),
            operand: OperandNode::Byte(0),
        },
        InstructionNode {
            index: 3,
            opcode: 0,
            command: "return".to_string(),
            operand: OperandNode::Byte(0),
        },
    ];

    let recovered = ExprRecovery::new(
        &instructions,
        &NameTable::new(),
        &NameTable::new(),
        &NameTable::new(),
        &ScriptCatalog::default(),
        &SignatureMap::new(),
    )
    .recover();

    assert!(matches!(
        &recovered[2],
        Some(RecoveredStmt::Expression(Expression::Call(call)))
            if matches!(&*call.callee, Expression::Identifier(id) if id.name == "UI.Setnpchead")
                && call.arguments.len() == 2
    ));
    assert!(matches!(&recovered[3], Some(RecoveredStmt::Return(None))));
}

#[test]
fn return_recovers_all_stack_values() {
    let instructions = vec![
        InstructionNode {
            index: 0,
            opcode: 0,
            command: "push_int_local".to_string(),
            operand: OperandNode::Local(1),
        },
        InstructionNode {
            index: 1,
            opcode: 0,
            command: "push_int_local".to_string(),
            operand: OperandNode::Local(2),
        },
        InstructionNode {
            index: 2,
            opcode: 0,
            command: "return".to_string(),
            operand: OperandNode::Byte(0),
        },
    ];

    let recovered = ExprRecovery::new(
        &instructions,
        &NameTable::new(),
        &NameTable::new(),
        &NameTable::new(),
        &ScriptCatalog::default(),
        &SignatureMap::new(),
    )
    .recover();

    assert!(matches!(
        &recovered[2],
        Some(RecoveredStmt::Return(Some(Expression::Call(call))))
            if matches!(&*call.callee, Expression::Identifier(identifier) if identifier.name == "stack")
                && call.arguments.len() == 2
                && matches!(&call.arguments[0], Expression::Identifier(identifier) if identifier.name == "local_int_1")
                && matches!(&call.arguments[1], Expression::Identifier(identifier) if identifier.name == "local_int_2")
    ));
}

#[test]
fn tostring_uses_build_specific_extra_argument_after_919() {
    let instructions = vec![
        InstructionNode {
            index: 0,
            opcode: 0,
            command: "push_int_local".to_string(),
            operand: OperandNode::Local(0),
        },
        InstructionNode {
            index: 1,
            opcode: 0,
            command: "push_constant_string".to_string(),
            operand: OperandNode::Int(10),
        },
        InstructionNode {
            index: 2,
            opcode: 0,
            command: "tostring".to_string(),
            operand: OperandNode::Int(0),
        },
        InstructionNode {
            index: 3,
            opcode: 0,
            command: "return".to_string(),
            operand: OperandNode::Int(0),
        },
    ];

    let recovered = ExprRecovery::new_for_build(
        &instructions,
        &NameTable::new(),
        &NameTable::new(),
        &NameTable::new(),
        &ScriptCatalog::default(),
        &SignatureMap::new(),
        947,
    )
    .recover();

    assert!(matches!(
        &recovered[3],
        Some(RecoveredStmt::Return(Some(Expression::Call(call))))
            if matches!(&*call.callee, Expression::Identifier(identifier) if identifier.name == "tostring")
                && call.arguments.len() == 2
    ));
}

#[test]
fn opcode_stack_effect_reports_build_specific_clan_find_affined_arity() {
    let legacy = opcode_stack_effect_for_build("activeclansettings_find_affined", 910, &EffectTables::new())
        .expect("legacy clan find effect should exist");
    let modern = opcode_stack_effect_for_build("activeclansettings_find_affined", 947, &EffectTables::new())
        .expect("modern clan find effect should exist");

    assert_eq!((legacy.int_pops, legacy.int_pushes), (0, 1));
    assert_eq!((modern.int_pops, modern.int_pushes), (1, 1));
}

#[test]
fn opcode_stack_effect_reports_build_specific_camera_entity_arity() {
    let legacy = opcode_stack_effect_for_build("cam2_setpositionentity_npc", 910, &EffectTables::new())
        .expect("legacy camera entity effect should exist");
    let modern = opcode_stack_effect_for_build("cam2_setpositionentity_npc", 947, &EffectTables::new())
        .expect("modern camera entity effect should exist");

    assert_eq!(legacy.int_pops, 7);
    assert_eq!(modern.int_pops, 8);
}

#[test]
fn modern_clan_find_affined_recovers_mode_argument() {
    let instructions = vec![
        InstructionNode {
            index: 0,
            opcode: 0,
            command: "push_constant_string".to_string(),
            operand: OperandNode::Int(0),
        },
        InstructionNode {
            index: 1,
            opcode: 0,
            command: "activeclansettings_find_affined".to_string(),
            operand: OperandNode::Byte(0),
        },
        InstructionNode {
            index: 2,
            opcode: 0,
            command: "return".to_string(),
            operand: OperandNode::Byte(0),
        },
    ];

    let recovered = ExprRecovery::new_for_build(
        &instructions,
        &NameTable::new(),
        &NameTable::new(),
        &NameTable::new(),
        &ScriptCatalog::default(),
        &SignatureMap::new(),
        947,
    )
    .recover();

    assert!(matches!(
        &recovered[2],
        Some(RecoveredStmt::Return(Some(Expression::Call(call))))
            if matches!(&*call.callee, Expression::Identifier(identifier) if identifier.name == "activeclansettingsfindaffined")
                && call.arguments.len() == 1
    ));
}

#[test]
fn avatar_base_setters_recover_payload_arguments() {
    let instructions = vec![
        InstructionNode {
            index: 0,
            opcode: 0,
            command: "push_int_local".to_string(),
            operand: OperandNode::Local(2),
        },
        InstructionNode {
            index: 1,
            opcode: 0,
            command: "push_int_local".to_string(),
            operand: OperandNode::Local(3),
        },
        InstructionNode {
            index: 2,
            opcode: 0,
            command: "basecolour".to_string(),
            operand: OperandNode::Byte(0),
        },
        InstructionNode {
            index: 3,
            opcode: 0,
            command: "return".to_string(),
            operand: OperandNode::Byte(0),
        },
    ];

    let recovered = ExprRecovery::new(
        &instructions,
        &NameTable::new(),
        &NameTable::new(),
        &NameTable::new(),
        &ScriptCatalog::default(),
        &SignatureMap::new(),
    )
    .recover();

    assert!(matches!(
        &recovered[2],
        Some(RecoveredStmt::Expression(Expression::Call(call)))
            if matches!(&*call.callee, Expression::Identifier(identifier) if identifier.name == "basecolour")
                && call.arguments.len() == 2
    ));
    assert!(matches!(&recovered[3], Some(RecoveredStmt::Return(None))));
}

#[test]
fn plain_strings_with_callback_like_text_stay_strings() {
    let instructions = vec![
        InstructionNode {
            index: 0,
            opcode: 0,
            command: "push_constant_string".to_string(),
            operand: OperandNode::String("oc_debugname".to_string()),
        },
        InstructionNode {
            index: 1,
            opcode: 0,
            command: "return".to_string(),
            operand: OperandNode::Int(0),
        },
    ];

    let recovered = ExprRecovery::new(
        &instructions,
        &NameTable::new(),
        &NameTable::new(),
        &NameTable::new(),
        &ScriptCatalog::default(),
        &SignatureMap::new(),
    )
    .recover();

    assert!(matches!(
        &recovered[1],
        Some(RecoveredStmt::Return(Some(Expression::StringLiteral(value))))
            if value.value == "oc_debugname"
    ));
}

#[test]
fn delayed_stack_value_before_void_command_recovers_push_sequence() {
    let instructions = vec![
        InstructionNode {
            index: 0,
            opcode: 0,
            command: "push_constant_string".to_string(),
            operand: OperandNode::Int(0),
        },
        InstructionNode {
            index: 1,
            opcode: 0,
            command: "autosetup_setultra".to_string(),
            operand: OperandNode::Int(0),
        },
        InstructionNode {
            index: 2,
            opcode: 0,
            command: "pop_int_discard".to_string(),
            operand: OperandNode::Int(0),
        },
    ];

    let recovered = ExprRecovery::new(
        &instructions,
        &NameTable::new(),
        &NameTable::new(),
        &NameTable::new(),
        &ScriptCatalog::default(),
        &SignatureMap::new(),
    )
    .recover();

    assert!(matches!(
        &recovered[1],
        Some(RecoveredStmt::Expression(Expression::Call(call)))
            if matches!(&*call.callee, Expression::Identifier(identifier) if identifier.name == "stackpush_then")
                && call.arguments.len() == 2
    ));
    assert!(matches!(
        &recovered[2],
        Some(RecoveredStmt::Expression(Expression::Call(call)))
            if matches!(&*call.callee, Expression::Identifier(identifier) if identifier.name == "popintdiscard")
    ));
}

#[test]
fn delayed_stack_value_before_value_command_recovers_push_sequence() {
    let instructions = vec![
        InstructionNode {
            index: 0,
            opcode: 0,
            command: "push_constant_string".to_string(),
            operand: OperandNode::Int(0),
        },
        InstructionNode {
            index: 1,
            opcode: 0,
            command: "unknown_command_20".to_string(),
            operand: OperandNode::Int(0),
        },
        InstructionNode {
            index: 2,
            opcode: 0,
            command: "push_constant_string".to_string(),
            operand: OperandNode::Int(1),
        },
        InstructionNode {
            index: 3,
            opcode: 0,
            command: "branch_equals".to_string(),
            operand: OperandNode::Branch(4),
        },
    ];

    let recovered = ExprRecovery::new(
        &instructions,
        &NameTable::new(),
        &NameTable::new(),
        &NameTable::new(),
        &ScriptCatalog::default(),
        &SignatureMap::new(),
    )
    .recover();

    assert!(matches!(
        &recovered[3],
        Some(RecoveredStmt::BranchBinary { left: Expression::Call(call), .. })
            if matches!(&*call.callee, Expression::Identifier(identifier) if identifier.name == "stackpush_then")
                && call.arguments.len() == 2
    ));
}

#[test]
fn empty_discard_recovers_typed_discard_call() {
    let instructions = vec![InstructionNode {
        index: 0,
        opcode: 0,
        command: "pop_int_discard".to_string(),
        operand: OperandNode::Byte(0),
    }];

    let recovered = ExprRecovery::new(
        &instructions,
        &NameTable::new(),
        &NameTable::new(),
        &NameTable::new(),
        &ScriptCatalog::default(),
        &SignatureMap::new(),
    )
    .recover();

    assert!(matches!(
        &recovered[0],
        Some(RecoveredStmt::Expression(Expression::Call(call)))
            if matches!(&*call.callee, Expression::Identifier(identifier) if identifier.name == "popintdiscard")
                && call.arguments.is_empty()
    ));
}

#[test]
fn scriptqueue_add_recovers_delay_callback_and_component() {
    let instructions = vec![
        InstructionNode {
            index: 0,
            opcode: 0,
            command: "push_constant_string".to_string(),
            operand: OperandNode::Int(50),
        },
        InstructionNode {
            index: 1,
            opcode: 0,
            command: "push_constant_string".to_string(),
            operand: OperandNode::Int(19746),
        },
        InstructionNode {
            index: 2,
            opcode: 0,
            command: "push_constant_string".to_string(),
            operand: OperandNode::Int(-2_147_483_645),
        },
        InstructionNode {
            index: 3,
            opcode: 0,
            command: "push_constant_string".to_string(),
            operand: OperandNode::Int(-2_147_483_643),
        },
        InstructionNode {
            index: 4,
            opcode: 0,
            command: "push_constant_string".to_string(),
            operand: OperandNode::String("ii".to_string()),
        },
        InstructionNode {
            index: 5,
            opcode: 0,
            command: "cc_scriptqueue_add".to_string(),
            operand: OperandNode::Int(0),
        },
        InstructionNode {
            index: 6,
            opcode: 0,
            command: "pop_long_discard".to_string(),
            operand: OperandNode::Int(0),
        },
    ];

    let recovered = ExprRecovery::new(
        &instructions,
        &NameTable::new(),
        &NameTable::new(),
        &NameTable::new(),
        &ScriptCatalog::default(),
        &SignatureMap::new(),
    )
    .recover();

    assert!(recovered[5].is_none());
    assert!(matches!(
        &recovered[6],
        Some(RecoveredStmt::Expression(Expression::Call(call)))
            if matches!(&*call.callee, Expression::Identifier(identifier) if identifier.name == "UI.ScriptqueueAdd")
                && call.arguments.len() == 2
                && matches!(&call.arguments[1], Expression::CallbackLiteral(callback) if callback.script == "script19746" && callback.arguments.len() == 2)
    ));
}

#[test]
fn cc_delete_uses_active_component_without_stack_argument() {
    let instructions = vec![InstructionNode {
        index: 0,
        opcode: 0,
        command: "cc_delete".to_string(),
        operand: OperandNode::Byte(0),
    }];

    let recovered = ExprRecovery::new(
        &instructions,
        &NameTable::new(),
        &NameTable::new(),
        &NameTable::new(),
        &ScriptCatalog::default(),
        &SignatureMap::new(),
    )
    .recover();

    assert!(matches!(
        &recovered[0],
        Some(RecoveredStmt::Expression(Expression::Call(call)))
            if call.arguments.is_empty()
    ));
}

#[test]
fn cc_create_preserves_nonzero_operand_mode() {
    let instructions = vec![
        InstructionNode {
            index: 0,
            opcode: 0,
            command: "push_constant_int".to_string(),
            operand: OperandNode::Int(100),
        },
        InstructionNode {
            index: 1,
            opcode: 0,
            command: "push_constant_int".to_string(),
            operand: OperandNode::Int(5),
        },
        InstructionNode {
            index: 2,
            opcode: 0,
            command: "push_constant_int".to_string(),
            operand: OperandNode::Int(7),
        },
        InstructionNode {
            index: 3,
            opcode: 0,
            command: "cc_create".to_string(),
            operand: OperandNode::Byte(1),
        },
    ];

    let recovered = ExprRecovery::new(
        &instructions,
        &NameTable::new(),
        &NameTable::new(),
        &NameTable::new(),
        &ScriptCatalog::default(),
        &SignatureMap::new(),
    )
    .recover();

    assert!(matches!(
        &recovered[3],
        Some(RecoveredStmt::Expression(Expression::Call(call)))
            if matches!(&*call.callee, Expression::Identifier(identifier) if identifier.name == "UI.create")
                && call.arguments.len() == 4
                && matches!(&call.arguments[3], Expression::NumberLiteral(mode) if mode.value == 1)
    ));
}

#[test]
fn ui_call_recovery_preserves_nonzero_operand_mode_suffix() {
    let instructions = vec![
        InstructionNode {
            index: 0,
            opcode: 0,
            command: "push_constant_string".to_string(),
            operand: OperandNode::String("text".to_string()),
        },
        InstructionNode {
            index: 1,
            opcode: 0,
            command: "cc_settext".to_string(),
            operand: OperandNode::Byte(1),
        },
    ];

    let recovered = ExprRecovery::new(
        &instructions,
        &NameTable::new(),
        &NameTable::new(),
        &NameTable::new(),
        &ScriptCatalog::default(),
        &SignatureMap::new(),
    )
    .recover();

    assert!(matches!(
        &recovered[1],
        Some(RecoveredStmt::Expression(Expression::Call(call)))
            if matches!(&*call.callee, Expression::Identifier(identifier) if identifier.name == "UI.setTextWithMode")
                && call.arguments.len() == 2
                && matches!(&call.arguments[1], Expression::NumberLiteral(mode) if mode.value == 1)
    ));
}

#[test]
fn ui_hook_preserves_pending_stack_values_before_statement() {
    let instructions = vec![
        InstructionNode {
            index: 0,
            opcode: 0,
            command: "push_constant_string".to_string(),
            operand: OperandNode::Int(99),
        },
        InstructionNode {
            index: 1,
            opcode: 0,
            command: "push_constant_string".to_string(),
            operand: OperandNode::Int(5327),
        },
        InstructionNode {
            index: 2,
            opcode: 0,
            command: "push_constant_string".to_string(),
            operand: OperandNode::String(String::new()),
        },
        InstructionNode {
            index: 3,
            opcode: 0,
            command: "push_int_local".to_string(),
            operand: OperandNode::Local(0),
        },
        InstructionNode {
            index: 4,
            opcode: 0,
            command: "if_setonclick".to_string(),
            operand: OperandNode::Byte(0),
        },
    ];

    let recovered = ExprRecovery::new(
        &instructions,
        &NameTable::new(),
        &NameTable::new(),
        &NameTable::new(),
        &ScriptCatalog::default(),
        &SignatureMap::new(),
    )
    .recover();

    assert!(matches!(
        &recovered[4],
        Some(RecoveredStmt::Expression(Expression::Call(call)))
            if matches!(&*call.callee, Expression::Identifier(identifier) if identifier.name == "stackpush_then")
                && matches!(call.arguments.first(), Some(Expression::NumberLiteral(NumberLiteral { value: 99 })))
                && matches!(call.arguments.last(), Some(Expression::Call(inner))
                    if matches!(&*inner.callee, Expression::Identifier(identifier) if identifier.name == "UI.Setonclick"))
    ));
}

#[test]
fn ui_hook_callback_count_recovers_from_enum_named_literal() {
    let instructions = vec![
        InstructionNode {
            index: 0,
            opcode: 0,
            command: "push_constant_string".to_string(),
            operand: OperandNode::Int(123),
        },
        InstructionNode {
            index: 1,
            opcode: 0,
            command: "push_constant_string".to_string(),
            operand: OperandNode::Int(10),
        },
        InstructionNode {
            index: 2,
            opcode: 0,
            command: "push_constant_string".to_string(),
            operand: OperandNode::Int(11),
        },
        InstructionNode {
            index: 3,
            opcode: 0,
            command: "push_constant_string".to_string(),
            operand: OperandNode::Int(2),
        },
        InstructionNode {
            index: 4,
            opcode: 0,
            command: "push_constant_string".to_string(),
            operand: OperandNode::String("Y".to_string()),
        },
        InstructionNode {
            index: 5,
            opcode: 0,
            command: "push_int_local".to_string(),
            operand: OperandNode::Local(0),
        },
        InstructionNode {
            index: 6,
            opcode: 0,
            command: "if_setonvarcstrtransmit".to_string(),
            operand: OperandNode::Byte(0),
        },
    ];
    let enum_value_names = { let mut t = NameTable::new(); t.insert(2, "Enum_1.TWO".to_string()); t };

    let recovered = ExprRecovery::new(
        &instructions,
        &NameTable::new(),
        &NameTable::new(),
        &enum_value_names,
        &ScriptCatalog::default(),
        &SignatureMap::new(),
    )
    .recover();

    assert!(matches!(
        &recovered[6],
        Some(RecoveredStmt::Expression(Expression::Call(call)))
            if matches!(&*call.callee, Expression::Identifier(identifier) if identifier.name == "UI.Setonvarcstrtransmit")
                && matches!(call.arguments.first(), Some(Expression::CallbackLiteral(callback))
                    if callback.script == "script123"
                        && callback.watchers == ["varcstr_10", "varcstr_11"])
    ));
}

#[test]
fn varbit_recovery_preserves_transmog_suffix() {
    let instructions = vec![InstructionNode {
        index: 0,
        opcode: 0,
        command: "push_varbit".to_string(),
        operand: OperandNode::VarBitRef(VarBitRefNode {
            id: VarBitId(45522),
            name: Some("varplayerbit_45522".to_string()),
            is_transmog: true,
        }),
    }];

    let recovered = ExprRecovery::new(
        &instructions,
        &NameTable::new(),
        &NameTable::new(),
        &NameTable::new(),
        &ScriptCatalog::default(),
        &SignatureMap::new(),
    )
    .recover();

    assert!(recovered[0].is_none());
    assert!(matches!(
        ExprRecovery::new(
            &[
                instructions[0].clone(),
                InstructionNode {
                    index: 1,
                    opcode: 0,
                    command: "return".to_string(),
                    operand: OperandNode::Int(0),
                },
            ],
            &NameTable::new(),
            &NameTable::new(),
            &NameTable::new(),
            &ScriptCatalog::default(),
            &SignatureMap::new(),
        )
        .recover()
        .get(1),
        Some(Some(RecoveredStmt::Return(Some(Expression::Identifier(identifier)))))
            if identifier.name == "varplayerbit_45522_transmog"
    ));
}

#[test]
fn var_recovery_preserves_transmog_suffix() {
    let instructions = [InstructionNode {
        index: 0,
        opcode: 0,
        command: "push_var".to_string(),
        operand: OperandNode::VarRef(VarRefNode {
            domain: VarDomain::Player,
            id: VarId(12655),
            name: Some("varplayer_12655".to_string()),
            is_transmog: true,
        }),
    }];

    assert!(matches!(
        ExprRecovery::new(
            &[
                instructions[0].clone(),
                InstructionNode {
                    index: 1,
                    opcode: 0,
                    command: "return".to_string(),
                    operand: OperandNode::Int(0),
                },
            ],
            &NameTable::new(),
            &NameTable::new(),
            &NameTable::new(),
            &ScriptCatalog::default(),
            &SignatureMap::new(),
        )
        .recover()
        .get(1),
        Some(Some(RecoveredStmt::Return(Some(Expression::Identifier(identifier)))))
            if identifier.name == "varplayer_12655_transmog"
    ));
}

#[test]
fn cc_find_pushes_booleanish_result_expression() {
    let instructions = vec![
        InstructionNode {
            index: 0,
            opcode: 0,
            command: "push_constant_int".to_string(),
            operand: OperandNode::Int(100),
        },
        InstructionNode {
            index: 1,
            opcode: 0,
            command: "push_constant_int".to_string(),
            operand: OperandNode::Int(7),
        },
        InstructionNode {
            index: 2,
            opcode: 0,
            command: "cc_find".to_string(),
            operand: OperandNode::Byte(0),
        },
        InstructionNode {
            index: 3,
            opcode: 0,
            command: "return".to_string(),
            operand: OperandNode::Int(0),
        },
    ];

    let recovered = ExprRecovery::new(
        &instructions,
        &NameTable::new(),
        &NameTable::new(),
        &NameTable::new(),
        &ScriptCatalog::default(),
        &SignatureMap::new(),
    )
    .recover();

    assert!(matches!(
        &recovered[3],
        Some(RecoveredStmt::Return(Some(Expression::Call(call))))
            if call.arguments.len() == 2
    ));
}

#[test]
fn find_recovery_preserves_nonzero_operand_mode() {
    let cc_instructions = vec![
        InstructionNode {
            index: 0,
            opcode: 0,
            command: "push_constant_int".to_string(),
            operand: OperandNode::Int(100),
        },
        InstructionNode {
            index: 1,
            opcode: 0,
            command: "push_constant_int".to_string(),
            operand: OperandNode::Int(7),
        },
        InstructionNode {
            index: 2,
            opcode: 0,
            command: "cc_find".to_string(),
            operand: OperandNode::Byte(1),
        },
    ];
    let if_instructions = vec![
        InstructionNode {
            index: 0,
            opcode: 0,
            command: "push_constant_int".to_string(),
            operand: OperandNode::Int(100),
        },
        InstructionNode {
            index: 1,
            opcode: 0,
            command: "if_find".to_string(),
            operand: OperandNode::Byte(1),
        },
    ];

    let recovered_cc = ExprRecovery::new(
        &cc_instructions,
        &NameTable::new(),
        &NameTable::new(),
        &NameTable::new(),
        &ScriptCatalog::default(),
        &SignatureMap::new(),
    )
    .recover();
    let recovered_if = ExprRecovery::new(
        &if_instructions,
        &NameTable::new(),
        &NameTable::new(),
        &NameTable::new(),
        &ScriptCatalog::default(),
        &SignatureMap::new(),
    )
    .recover();

    assert!(recovered_cc[2].is_none());
    assert!(recovered_if[1].is_none());
    // Both are value-producing calls left on the recovered stack and will
    // be consumed by a following branch/store/return in real scripts; use
    // return to observe the expression without exposing internals.
    let mut cc_with_return = cc_instructions;
    cc_with_return.push(InstructionNode {
        index: 3,
        opcode: 0,
        command: "return".to_string(),
        operand: OperandNode::Byte(0),
    });
    let mut if_with_return = if_instructions;
    if_with_return.push(InstructionNode {
        index: 2,
        opcode: 0,
        command: "return".to_string(),
        operand: OperandNode::Byte(0),
    });
    let recovered_cc = ExprRecovery::new(
        &cc_with_return,
        &NameTable::new(),
        &NameTable::new(),
        &NameTable::new(),
        &ScriptCatalog::default(),
        &SignatureMap::new(),
    )
    .recover();
    let recovered_if = ExprRecovery::new(
        &if_with_return,
        &NameTable::new(),
        &NameTable::new(),
        &NameTable::new(),
        &ScriptCatalog::default(),
        &SignatureMap::new(),
    )
    .recover();

    assert!(matches!(
        &recovered_cc[3],
        Some(RecoveredStmt::Return(Some(Expression::Call(call))))
            if call.arguments.len() == 3
    ));
    assert!(matches!(
        &recovered_if[2],
        Some(RecoveredStmt::Return(Some(Expression::Call(call))))
            if matches!(&*call.callee, Expression::Identifier(identifier) if identifier.name == "UI.findInterface")
                && call.arguments.len() == 2
    ));
}

#[test]
fn cc_settext_uses_active_component_without_component_argument() {
    let instructions = vec![
        InstructionNode {
            index: 0,
            opcode: 0,
            command: "push_constant_string".to_string(),
            operand: OperandNode::String("hello".to_string()),
        },
        InstructionNode {
            index: 1,
            opcode: 0,
            command: "cc_settext".to_string(),
            operand: OperandNode::Byte(0),
        },
    ];

    let recovered = ExprRecovery::new(
        &instructions,
        &NameTable::new(),
        &NameTable::new(),
        &NameTable::new(),
        &ScriptCatalog::default(),
        &SignatureMap::new(),
    )
    .recover();

    assert!(matches!(
        &recovered[1],
        Some(RecoveredStmt::Expression(Expression::Call(call)))
            if call.arguments.len() == 1
    ));
}

#[test]
fn cc_setposition_keeps_all_four_runtime_arguments() {
    let instructions = vec![
        InstructionNode {
            index: 0,
            opcode: 0,
            command: "push_constant_int".to_string(),
            operand: OperandNode::Int(10),
        },
        InstructionNode {
            index: 1,
            opcode: 0,
            command: "push_constant_int".to_string(),
            operand: OperandNode::Int(20),
        },
        InstructionNode {
            index: 2,
            opcode: 0,
            command: "push_constant_int".to_string(),
            operand: OperandNode::Int(1),
        },
        InstructionNode {
            index: 3,
            opcode: 0,
            command: "push_constant_int".to_string(),
            operand: OperandNode::Int(2),
        },
        InstructionNode {
            index: 4,
            opcode: 0,
            command: "cc_setposition".to_string(),
            operand: OperandNode::Byte(0),
        },
    ];

    let recovered = ExprRecovery::new(
        &instructions,
        &NameTable::new(),
        &NameTable::new(),
        &NameTable::new(),
        &ScriptCatalog::default(),
        &SignatureMap::new(),
    )
    .recover();

    assert!(matches!(
        &recovered[4],
        Some(RecoveredStmt::Expression(Expression::Call(call)))
            if call.arguments.len() == 4
    ));
}

#[test]
fn oc_param_pushes_generic_call_expression() {
    let instructions = vec![
        InstructionNode {
            index: 0,
            opcode: 0,
            command: "push_constant_int".to_string(),
            operand: OperandNode::Int(100),
        },
        InstructionNode {
            index: 1,
            opcode: 0,
            command: "push_constant_int".to_string(),
            operand: OperandNode::Int(7),
        },
        InstructionNode {
            index: 2,
            opcode: 0,
            command: "oc_param".to_string(),
            operand: OperandNode::Byte(0),
        },
        InstructionNode {
            index: 3,
            opcode: 0,
            command: "return".to_string(),
            operand: OperandNode::Byte(0),
        },
    ];

    let recovered = ExprRecovery::new(
        &instructions,
        &NameTable::new(),
        &NameTable::new(),
        &NameTable::new(),
        &ScriptCatalog::default(),
        &SignatureMap::new(),
    )
    .recover();

    assert!(matches!(
        &recovered[3],
        Some(RecoveredStmt::Return(Some(Expression::Call(call))))
            if call.arguments.len() == 2
    ));
}

#[test]
fn player_group_same_world_var_pushes_generic_call_expression() {
    let instructions = vec![
        InstructionNode {
            index: 0,
            opcode: 0,
            command: "push_constant_int".to_string(),
            operand: OperandNode::Int(1),
        },
        InstructionNode {
            index: 1,
            opcode: 0,
            command: "push_constant_int".to_string(),
            operand: OperandNode::Int(1),
        },
        InstructionNode {
            index: 2,
            opcode: 0,
            command: "push_constant_int".to_string(),
            operand: OperandNode::Int(7),
        },
        InstructionNode {
            index: 3,
            opcode: 0,
            command: "player_group_member_get_same_world_var".to_string(),
            operand: OperandNode::Byte(0),
        },
        InstructionNode {
            index: 4,
            opcode: 0,
            command: "return".to_string(),
            operand: OperandNode::Byte(0),
        },
    ];

    let recovered = ExprRecovery::new(
        &instructions,
        &NameTable::new(),
        &NameTable::new(),
        &NameTable::new(),
        &ScriptCatalog::default(),
        &SignatureMap::new(),
    )
    .recover();

    assert!(matches!(
        &recovered[4],
        Some(RecoveredStmt::Return(Some(Expression::Call(call))))
            if call.arguments.len() == 3
    ));
}

#[test]
fn notifications_sendlocal_pops_four_args_and_pushes_result_expression() {
    let instructions = vec![
        InstructionNode {
            index: 0,
            opcode: 0,
            command: "push_constant_string".to_string(),
            operand: OperandNode::String("title".to_string()),
        },
        InstructionNode {
            index: 1,
            opcode: 0,
            command: "push_constant_string".to_string(),
            operand: OperandNode::String("body".to_string()),
        },
        InstructionNode {
            index: 2,
            opcode: 0,
            command: "push_constant_int".to_string(),
            operand: OperandNode::Int(1),
        },
        InstructionNode {
            index: 3,
            opcode: 0,
            command: "push_constant_int".to_string(),
            operand: OperandNode::Int(2),
        },
        InstructionNode {
            index: 4,
            opcode: 0,
            command: "notifications_sendlocal".to_string(),
            operand: OperandNode::Byte(0),
        },
        InstructionNode {
            index: 5,
            opcode: 0,
            command: "return".to_string(),
            operand: OperandNode::Byte(0),
        },
    ];

    let recovered = ExprRecovery::new(
        &instructions,
        &NameTable::new(),
        &NameTable::new(),
        &NameTable::new(),
        &ScriptCatalog::default(),
        &SignatureMap::new(),
    )
    .recover();

    assert!(matches!(
        &recovered[5],
        Some(RecoveredStmt::Return(Some(Expression::Call(call))))
            if call.arguments.len() == 4
    ));
}

#[test]
fn db_helpers_use_runtime_stack_args_instead_of_operand_lookup() {
    let instructions = vec![
        InstructionNode {
            index: 0,
            opcode: 0,
            command: "push_constant_int".to_string(),
            operand: OperandNode::Int(42),
        },
        InstructionNode {
            index: 1,
            opcode: 0,
            command: "db_listall".to_string(),
            operand: OperandNode::Byte(0),
        },
        InstructionNode {
            index: 2,
            opcode: 0,
            command: "push_constant_int".to_string(),
            operand: OperandNode::Int(7),
        },
        InstructionNode {
            index: 3,
            opcode: 0,
            command: "db_getrowtable".to_string(),
            operand: OperandNode::Byte(0),
        },
        InstructionNode {
            index: 4,
            opcode: 0,
            command: "return".to_string(),
            operand: OperandNode::Byte(0),
        },
    ];

    let recovered = ExprRecovery::new(
        &instructions,
        &NameTable::new(),
        &NameTable::new(),
        &NameTable::new(),
        &ScriptCatalog::default(),
        &SignatureMap::new(),
    )
    .recover();

    assert!(matches!(
        &recovered[4],
        Some(RecoveredStmt::Return(Some(Expression::Call(call))))
            if matches!(&*call.callee, Expression::Identifier(id) if id.name == "stack")
                && call.arguments.len() == 2
                && matches!(&call.arguments[0], Expression::Call(inner)
                    if matches!(&*inner.callee, Expression::Identifier(id) if id.name == "dblistall"))
                && matches!(&call.arguments[1], Expression::Call(inner)
                    if matches!(&*inner.callee, Expression::Identifier(id) if id.name == "dbgetrowtable"))
    ));
    assert!(recovered[1].is_none());
}

#[test]
fn recovered_return_type_uses_string_return_values() {
    let recovered = vec![Some(RecoveredStmt::Return(Some(
        Expression::StringLiteral(StringLiteral {
            value: "ok".to_string(),
        }),
    )))];

    assert_eq!(detect_return_type_from_recovered(&recovered), "string");
}

#[test]
fn recovered_return_type_ignores_void_calls_inside_stack_return() {
    let script_id = ScriptId(1);
    let mut catalog = ScriptCatalog::default();
    let signature = ScriptSignature {
        arg_count_int: 1,
        arg_count_obj: 0,
        arg_count_long: 0,
        return_count_int: 0,
        return_count_obj: 0,
        return_count_long: 0,
        return_type: "void".to_string(),
    };
    catalog.insert(ScriptMetadata {
        packed_id: script_id,
        group_id: ScriptGroupId(1),
        file_id: 0,
        kind: ScriptKind::Unknown,
        raw_name: None,
        short_name: "void_helper".to_string(),
        export_name: "void_helper".to_string(),
        module_name: "void_helper".to_string(),
        signature: signature.clone(),
    });
    let signatures = SignatureMap::from_pairs(vec![(script_id, signature)]);
    let recovered = vec![Some(RecoveredStmt::Return(Some(Expression::Call(
        CallExpr {
            callee: Box::new(Expression::Identifier(Identifier {
                name: "stack".to_string(),
            })),
            arguments: vec![
                Expression::Call(CallExpr {
                    callee: Box::new(Expression::Identifier(Identifier {
                        name: "void_helper".to_string(),
                    })),
                    arguments: Vec::new(),
                }),
                Expression::StringLiteral(StringLiteral {
                    value: "ok".to_string(),
                }),
            ],
        },
    ))))];

    assert_eq!(
        detect_return_type_from_recovered_with_signatures(&recovered, &catalog, &signatures),
        "string"
    );
}

#[test]
fn db_find_uses_build_specific_basevartype_argument_after_919() {
    let instructions = vec![
        InstructionNode {
            index: 0,
            opcode: 0,
            command: "push_constant_string".to_string(),
            operand: OperandNode::Int(503_808),
        },
        InstructionNode {
            index: 1,
            opcode: 0,
            command: "push_int_local".to_string(),
            operand: OperandNode::Local(0),
        },
        InstructionNode {
            index: 2,
            opcode: 0,
            command: "push_constant_string".to_string(),
            operand: OperandNode::Int(0),
        },
        InstructionNode {
            index: 3,
            opcode: 0,
            command: "db_find".to_string(),
            operand: OperandNode::Byte(0),
        },
    ];

    let recovered = ExprRecovery::new_for_build(
        &instructions,
        &NameTable::new(),
        &NameTable::new(),
        &NameTable::new(),
        &ScriptCatalog::default(),
        &SignatureMap::new(),
        947,
    )
    .recover();

    assert!(matches!(
        &recovered[3],
        Some(RecoveredStmt::Expression(Expression::Call(call)))
            if matches!(&*call.callee, Expression::Identifier(id) if id.name == "dbfind")
                && call.arguments.len() == 3
    ));
}

#[test]
fn void_zero_arg_commands_recover_as_statements() {
    let instructions = vec![InstructionNode {
        index: 0,
        opcode: 0,
        command: "notifications_init".to_string(),
        operand: OperandNode::Byte(0),
    }];

    let recovered = ExprRecovery::new(
        &instructions,
        &NameTable::new(),
        &NameTable::new(),
        &NameTable::new(),
        &ScriptCatalog::default(),
        &SignatureMap::new(),
    )
    .recover();

    assert!(matches!(
        &recovered[0],
        Some(RecoveredStmt::Expression(Expression::Call(call)))
            if matches!(&*call.callee, Expression::Identifier(id) if id.name == "notificationsinit")
                && call.arguments.is_empty()
    ));
}

#[test]
fn cam2_mode_setters_recover_stack_argument() {
    let instructions = vec![
        InstructionNode {
            index: 0,
            opcode: 0,
            command: "push_constant_int".to_string(),
            operand: OperandNode::Int(1),
        },
        InstructionNode {
            index: 1,
            opcode: 0,
            command: "cam2_setlookatmode".to_string(),
            operand: OperandNode::Byte(0),
        },
    ];

    let recovered = ExprRecovery::new(
        &instructions,
        &NameTable::new(),
        &NameTable::new(),
        &NameTable::new(),
        &ScriptCatalog::default(),
        &SignatureMap::new(),
    )
    .recover();

    assert!(matches!(
        &recovered[1],
        Some(RecoveredStmt::Expression(Expression::Call(call)))
            if matches!(&*call.callee, Expression::Identifier(id) if id.name == "cam2setlookatmode")
                && call.arguments.len() == 1
    ));
}

#[test]
fn db_filter_value_recovers_four_arguments_and_result() {
    let instructions = vec![
        InstructionNode {
            index: 0,
            opcode: 0,
            command: "push_constant_int".to_string(),
            operand: OperandNode::Int(1_470_560),
        },
        InstructionNode {
            index: 1,
            opcode: 0,
            command: "push_constant_int".to_string(),
            operand: OperandNode::Int(1),
        },
        InstructionNode {
            index: 2,
            opcode: 0,
            command: "push_constant_int".to_string(),
            operand: OperandNode::Int(3),
        },
        InstructionNode {
            index: 3,
            opcode: 0,
            command: "push_constant_int".to_string(),
            operand: OperandNode::Int(0),
        },
        InstructionNode {
            index: 4,
            opcode: 0,
            command: "db_filter_value".to_string(),
            operand: OperandNode::Byte(0),
        },
        InstructionNode {
            index: 5,
            opcode: 0,
            command: "return".to_string(),
            operand: OperandNode::Byte(0),
        },
    ];

    let recovered = ExprRecovery::new(
        &instructions,
        &NameTable::new(),
        &NameTable::new(),
        &NameTable::new(),
        &ScriptCatalog::default(),
        &SignatureMap::new(),
    )
    .recover();

    assert!(matches!(
        &recovered[5],
        Some(RecoveredStmt::Return(Some(Expression::Call(call))))
            if matches!(&*call.callee, Expression::Identifier(id) if id.name == "dbfiltervalue")
                && call.arguments.len() == 4
    ));
}

#[test]
fn minimenu_entry_helper_pushes_named_properties_in_vm_order() {
    let instructions = vec![
        InstructionNode {
            index: 0,
            opcode: 0,
            command: "get_active_minimenu_entry".to_string(),
            operand: OperandNode::Byte(0),
        },
        InstructionNode {
            index: 1,
            opcode: 0,
            command: "pop_string_local".to_string(),
            operand: OperandNode::Local(0),
        },
        InstructionNode {
            index: 2,
            opcode: 0,
            command: "pop_string_local".to_string(),
            operand: OperandNode::Local(1),
        },
        InstructionNode {
            index: 3,
            opcode: 0,
            command: "pop_string_local".to_string(),
            operand: OperandNode::Local(2),
        },
        InstructionNode {
            index: 4,
            opcode: 0,
            command: "pop_int_local".to_string(),
            operand: OperandNode::Local(0),
        },
    ];

    let recovered = ExprRecovery::new(
        &instructions,
        &NameTable::new(),
        &NameTable::new(),
        &NameTable::new(),
        &ScriptCatalog::default(),
        &SignatureMap::new(),
    )
    .recover();

    for (slot, property) in [
        (&recovered[1], "questIconSuffix"),
        (&recovered[2], "opBase"),
        (&recovered[3], "op"),
        (&recovered[4], "entityType"),
    ] {
        assert!(matches!(
            slot,
            Some(RecoveredStmt::Assignment { value: Expression::PropertyAccess(access), .. })
                if access.property == property
                    && matches!(&*access.object, Expression::Call(call)
                        if matches!(&*call.callee, Expression::Identifier(id) if id.name == "getactiveminimenuentry"))
        ));
    }
}

#[test]
fn minimenu_target_helper_preserves_multivalue_stack_order() {
    let instructions = vec![
        InstructionNode {
            index: 0,
            opcode: 0,
            command: "get_minimenu_target".to_string(),
            operand: OperandNode::Byte(0),
        },
        InstructionNode {
            index: 1,
            opcode: 0,
            command: "pop_string_local".to_string(),
            operand: OperandNode::Local(0),
        },
        InstructionNode {
            index: 2,
            opcode: 0,
            command: "pop_string_local".to_string(),
            operand: OperandNode::Local(1),
        },
        InstructionNode {
            index: 3,
            opcode: 0,
            command: "pop_int_local".to_string(),
            operand: OperandNode::Local(0),
        },
    ];

    let recovered = ExprRecovery::new(
        &instructions,
        &NameTable::new(),
        &NameTable::new(),
        &NameTable::new(),
        &ScriptCatalog::default(),
        &SignatureMap::new(),
    )
    .recover();

    for (slot, index) in [(&recovered[1], 2), (&recovered[2], 1), (&recovered[3], 0)] {
        assert!(matches!(
            slot,
            Some(RecoveredStmt::Assignment { value: Expression::ArrayAccess(access), .. })
                if matches!(&*access.array, Expression::Call(call)
                    if matches!(&*call.callee, Expression::Identifier(id) if id.name == "getminimenutarget"))
                    && matches!(&*access.index, Expression::NumberLiteral(cs2script::transpile::ast::NumberLiteral { value }) if *value == index)
        ));
    }
}

#[test]
fn minimenu_unknown_helpers_preserve_multivalue_stack_order() {
    let instructions = vec![
        InstructionNode {
            index: 0,
            opcode: 0,
            command: "push_int_local".to_string(),
            operand: OperandNode::Local(1),
        },
        InstructionNode {
            index: 1,
            opcode: 0,
            command: "push_int_local".to_string(),
            operand: OperandNode::Local(2),
        },
        InstructionNode {
            index: 2,
            opcode: 0,
            command: "unknown_command_29".to_string(),
            operand: OperandNode::Byte(0),
        },
        InstructionNode {
            index: 3,
            opcode: 0,
            command: "pop_int_local".to_string(),
            operand: OperandNode::Local(6),
        },
        InstructionNode {
            index: 4,
            opcode: 0,
            command: "pop_string_local".to_string(),
            operand: OperandNode::Local(0),
        },
        InstructionNode {
            index: 5,
            opcode: 0,
            command: "pop_int_local".to_string(),
            operand: OperandNode::Local(5),
        },
    ];

    let recovered = ExprRecovery::new(
        &instructions,
        &NameTable::new(),
        &NameTable::new(),
        &NameTable::new(),
        &ScriptCatalog::default(),
        &SignatureMap::new(),
    )
    .recover();

    for (slot, index) in [(&recovered[3], 2), (&recovered[4], 1), (&recovered[5], 0)] {
        assert!(matches!(
            slot,
            Some(RecoveredStmt::Assignment { value: Expression::ArrayAccess(access), .. })
                if matches!(&*access.array, Expression::Call(call)
                    if matches!(&*call.callee, Expression::Identifier(id) if id.name == "unknowncommand29"))
                    && matches!(&*access.index, Expression::NumberLiteral(cs2script::transpile::ast::NumberLiteral { value }) if *value == index)
        ));
    }
}

#[test]
fn noarg_minimenu_commands_emit_call_statements() {
    let instructions = vec![
        InstructionNode {
            index: 0,
            opcode: 0,
            command: "defaultminimenu".to_string(),
            operand: OperandNode::Byte(0),
        },
        InstructionNode {
            index: 1,
            opcode: 0,
            command: "minimenu_close".to_string(),
            operand: OperandNode::Byte(0),
        },
    ];

    let recovered = ExprRecovery::new(
        &instructions,
        &NameTable::new(),
        &NameTable::new(),
        &NameTable::new(),
        &ScriptCatalog::default(),
        &SignatureMap::new(),
    )
    .recover();

    for (slot, callee) in [
        (&recovered[0], "defaultminimenu"),
        (&recovered[1], "minimenuclose"),
    ] {
        assert!(matches!(
            slot,
            Some(RecoveredStmt::Expression(Expression::Call(call)))
                if matches!(&*call.callee, Expression::Identifier(id) if id.name == callee)
                    && call.arguments.is_empty()
        ));
    }
}

#[test]
fn window_getinsets_preserves_multivalue_stack_order() {
    let instructions = vec![
        InstructionNode {
            index: 0,
            opcode: 0,
            command: "window_getinsets".to_string(),
            operand: OperandNode::Byte(0),
        },
        InstructionNode {
            index: 1,
            opcode: 0,
            command: "pop_int_local".to_string(),
            operand: OperandNode::Local(0),
        },
        InstructionNode {
            index: 2,
            opcode: 0,
            command: "pop_int_local".to_string(),
            operand: OperandNode::Local(1),
        },
        InstructionNode {
            index: 3,
            opcode: 0,
            command: "pop_int_local".to_string(),
            operand: OperandNode::Local(2),
        },
        InstructionNode {
            index: 4,
            opcode: 0,
            command: "pop_int_local".to_string(),
            operand: OperandNode::Local(3),
        },
    ];

    let recovered = ExprRecovery::new(
        &instructions,
        &NameTable::new(),
        &NameTable::new(),
        &NameTable::new(),
        &ScriptCatalog::default(),
        &SignatureMap::new(),
    )
    .recover();

    for (slot, index) in [
        (&recovered[1], 3),
        (&recovered[2], 2),
        (&recovered[3], 1),
        (&recovered[4], 0),
    ] {
        assert!(matches!(
            slot,
            Some(RecoveredStmt::Assignment { value: Expression::ArrayAccess(access), .. })
                if matches!(&*access.array, Expression::Call(call)
                    if matches!(&*call.callee, Expression::Identifier(id) if id.name == "windowgetinsets"))
                    && matches!(&*access.index, Expression::NumberLiteral(cs2script::transpile::ast::NumberLiteral { value }) if *value == index)
        ));
    }
}

#[test]
fn interface_misc_getters_push_result_expressions() {
    let instructions = vec![
        InstructionNode {
            index: 0,
            opcode: 0,
            command: "push_constant_int".to_string(),
            operand: OperandNode::Int(42),
        },
        InstructionNode {
            index: 1,
            opcode: 0,
            command: "if_hassub".to_string(),
            operand: OperandNode::Byte(0),
        },
        InstructionNode {
            index: 2,
            opcode: 0,
            command: "push_constant_int".to_string(),
            operand: OperandNode::Int(42),
        },
        InstructionNode {
            index: 3,
            opcode: 0,
            command: "push_constant_int".to_string(),
            operand: OperandNode::Int(7),
        },
        InstructionNode {
            index: 4,
            opcode: 0,
            command: "if_hassubmodal".to_string(),
            operand: OperandNode::Byte(0),
        },
        InstructionNode {
            index: 5,
            opcode: 0,
            command: "if_get_gamescreen".to_string(),
            operand: OperandNode::Byte(0),
        },
        InstructionNode {
            index: 6,
            opcode: 0,
            command: "return".to_string(),
            operand: OperandNode::Byte(0),
        },
    ];

    let recovered = ExprRecovery::new(
        &instructions,
        &NameTable::new(),
        &NameTable::new(),
        &NameTable::new(),
        &ScriptCatalog::default(),
        &SignatureMap::new(),
    )
    .recover();

    assert!(matches!(
        &recovered[6],
        Some(RecoveredStmt::Return(Some(Expression::Call(call))))
            if matches!(&*call.callee, Expression::Identifier(id) if id.name == "stack")
                && call.arguments.len() == 3
                && matches!(&call.arguments[0], Expression::Call(inner)
                    if matches!(&*inner.callee, Expression::Identifier(id) if id.name == "UI.HasSub"))
                && matches!(&call.arguments[1], Expression::Call(inner)
                    if matches!(&*inner.callee, Expression::Identifier(id) if id.name == "UI.HasSubmodal"))
                && matches!(&call.arguments[2], Expression::Call(inner)
                    if matches!(&*inner.callee, Expression::Identifier(id) if id.name == "UI.GetGamescreen"))
    ));
    assert!(recovered[4].is_none());
    assert!(recovered[1].is_none());
}

#[test]
fn interface_misc_noarg_commands_emit_call_statements() {
    let instructions = vec![
        InstructionNode {
            index: 0,
            opcode: 0,
            command: "if_close".to_string(),
            operand: OperandNode::Byte(0),
        },
        InstructionNode {
            index: 1,
            opcode: 0,
            command: "force_interface_drag".to_string(),
            operand: OperandNode::Byte(0),
        },
        InstructionNode {
            index: 2,
            opcode: 0,
            command: "cancel_interface_drag".to_string(),
            operand: OperandNode::Byte(0),
        },
        InstructionNode {
            index: 3,
            opcode: 0,
            command: "targetmode_cancel".to_string(),
            operand: OperandNode::Byte(0),
        },
    ];

    let recovered = ExprRecovery::new(
        &instructions,
        &NameTable::new(),
        &NameTable::new(),
        &NameTable::new(),
        &ScriptCatalog::default(),
        &SignatureMap::new(),
    )
    .recover();

    for (slot, callee) in [
        (&recovered[0], "UI.Close"),
        (&recovered[1], "forceinterfacedrag"),
        (&recovered[2], "cancelinterfacedrag"),
        (&recovered[3], "targetmodecancel"),
    ] {
        assert!(matches!(
            slot,
            Some(RecoveredStmt::Expression(Expression::Call(call)))
                if matches!(&*call.callee, Expression::Identifier(id) if id.name == callee)
                    && call.arguments.is_empty()
        ));
    }
}

#[test]
fn display_helpers_preserve_named_and_indexed_stack_results() {
    let instructions = vec![
        InstructionNode {
            index: 0,
            opcode: 0,
            command: "pushCanvasSize".to_string(),
            operand: OperandNode::Byte(0),
        },
        InstructionNode {
            index: 1,
            opcode: 0,
            command: "pop_int_local".to_string(),
            operand: OperandNode::Local(0),
        },
        InstructionNode {
            index: 2,
            opcode: 0,
            command: "pop_int_local".to_string(),
            operand: OperandNode::Local(1),
        },
        InstructionNode {
            index: 3,
            opcode: 0,
            command: "push_constant_int".to_string(),
            operand: OperandNode::Int(2),
        },
        InstructionNode {
            index: 4,
            opcode: 0,
            command: "fullscreen_getmode".to_string(),
            operand: OperandNode::Byte(0),
        },
        InstructionNode {
            index: 5,
            opcode: 0,
            command: "pop_int_local".to_string(),
            operand: OperandNode::Local(2),
        },
        InstructionNode {
            index: 6,
            opcode: 0,
            command: "pop_int_local".to_string(),
            operand: OperandNode::Local(3),
        },
        InstructionNode {
            index: 7,
            opcode: 0,
            command: "push_constant_int".to_string(),
            operand: OperandNode::Int(9),
        },
        InstructionNode {
            index: 8,
            opcode: 0,
            command: "pushFontMetrics".to_string(),
            operand: OperandNode::Byte(0),
        },
        InstructionNode {
            index: 9,
            opcode: 0,
            command: "pop_int_local".to_string(),
            operand: OperandNode::Local(4),
        },
        InstructionNode {
            index: 10,
            opcode: 0,
            command: "pop_int_local".to_string(),
            operand: OperandNode::Local(5),
        },
        InstructionNode {
            index: 11,
            opcode: 0,
            command: "pop_int_local".to_string(),
            operand: OperandNode::Local(6),
        },
        InstructionNode {
            index: 12,
            opcode: 0,
            command: "pop_int_local".to_string(),
            operand: OperandNode::Local(7),
        },
        InstructionNode {
            index: 13,
            opcode: 0,
            command: "pop_int_local".to_string(),
            operand: OperandNode::Local(8),
        },
    ];

    let recovered = ExprRecovery::new(
        &instructions,
        &NameTable::new(),
        &NameTable::new(),
        &NameTable::new(),
        &ScriptCatalog::default(),
        &SignatureMap::new(),
    )
    .recover();

    for (slot, callee, property) in [
        (&recovered[1], "pushCanvasSize", "height"),
        (&recovered[2], "pushCanvasSize", "width"),
        (&recovered[5], "fullscreengetmode", "height"),
        (&recovered[6], "fullscreengetmode", "width"),
    ] {
        assert!(matches!(
            slot,
            Some(RecoveredStmt::Assignment { value: Expression::PropertyAccess(access), .. })
                if access.property == property
                    && matches!(&*access.object, Expression::Call(call)
                        if matches!(&*call.callee, Expression::Identifier(id) if id.name == callee))
        ));
    }

    for (slot, index) in [
        (&recovered[9], 4),
        (&recovered[10], 3),
        (&recovered[11], 2),
        (&recovered[12], 1),
        (&recovered[13], 0),
    ] {
        assert!(matches!(
            slot,
            Some(RecoveredStmt::Assignment { value: Expression::ArrayAccess(access), .. })
                if matches!(&*access.array, Expression::Call(call)
                    if matches!(&*call.callee, Expression::Identifier(id) if id.name == "pushFontMetrics"))
                    && matches!(&*access.index, Expression::NumberLiteral(cs2script::transpile::ast::NumberLiteral { value }) if *value == index)
        ));
    }
}

#[test]
fn worldlist_helpers_preserve_named_stack_results() {
    let instructions = vec![
        InstructionNode {
            index: 0,
            opcode: 0,
            command: "worldlist_start".to_string(),
            operand: OperandNode::Byte(0),
        },
        InstructionNode {
            index: 1,
            opcode: 0,
            command: "pop_string_local".to_string(),
            operand: OperandNode::Local(0),
        },
        InstructionNode {
            index: 2,
            opcode: 0,
            command: "pop_int_local".to_string(),
            operand: OperandNode::Local(0),
        },
        InstructionNode {
            index: 3,
            opcode: 0,
            command: "pop_int_local".to_string(),
            operand: OperandNode::Local(1),
        },
        InstructionNode {
            index: 4,
            opcode: 0,
            command: "pop_string_local".to_string(),
            operand: OperandNode::Local(1),
        },
        InstructionNode {
            index: 5,
            opcode: 0,
            command: "pop_int_local".to_string(),
            operand: OperandNode::Local(2),
        },
        InstructionNode {
            index: 6,
            opcode: 0,
            command: "pop_string_local".to_string(),
            operand: OperandNode::Local(2),
        },
        InstructionNode {
            index: 7,
            opcode: 0,
            command: "pop_int_local".to_string(),
            operand: OperandNode::Local(3),
        },
        InstructionNode {
            index: 8,
            opcode: 0,
            command: "pop_int_local".to_string(),
            operand: OperandNode::Local(4),
        },
        InstructionNode {
            index: 9,
            opcode: 0,
            command: "push_constant_int".to_string(),
            operand: OperandNode::Int(302),
        },
        InstructionNode {
            index: 10,
            opcode: 0,
            command: "worldlist_specific".to_string(),
            operand: OperandNode::Byte(0),
        },
        InstructionNode {
            index: 11,
            opcode: 0,
            command: "pop_string_local".to_string(),
            operand: OperandNode::Local(3),
        },
        InstructionNode {
            index: 12,
            opcode: 0,
            command: "pop_int_local".to_string(),
            operand: OperandNode::Local(5),
        },
        InstructionNode {
            index: 13,
            opcode: 0,
            command: "pop_int_local".to_string(),
            operand: OperandNode::Local(6),
        },
        InstructionNode {
            index: 14,
            opcode: 0,
            command: "pop_string_local".to_string(),
            operand: OperandNode::Local(4),
        },
        InstructionNode {
            index: 15,
            opcode: 0,
            command: "pop_int_local".to_string(),
            operand: OperandNode::Local(7),
        },
        InstructionNode {
            index: 16,
            opcode: 0,
            command: "pop_string_local".to_string(),
            operand: OperandNode::Local(5),
        },
        InstructionNode {
            index: 17,
            opcode: 0,
            command: "pop_int_local".to_string(),
            operand: OperandNode::Local(8),
        },
    ];

    let recovered = ExprRecovery::new(
        &instructions,
        &NameTable::new(),
        &NameTable::new(),
        &NameTable::new(),
        &ScriptCatalog::default(),
        &SignatureMap::new(),
    )
    .recover();

    for (slot, callee, property) in [
        (&recovered[1], "worldliststart", "host"),
        (&recovered[2], "worldliststart", "ping"),
        (&recovered[3], "worldliststart", "players"),
        (&recovered[4], "worldliststart", "countryName"),
        (&recovered[5], "worldliststart", "countryId"),
        (&recovered[6], "worldliststart", "activity"),
        (&recovered[7], "worldliststart", "flags"),
        (&recovered[8], "worldliststart", "id"),
    ] {
        assert!(matches!(
            slot,
            Some(RecoveredStmt::Assignment { value: Expression::PropertyAccess(access), .. })
                if access.property == property
                    && matches!(&*access.object, Expression::Call(call)
                        if matches!(&*call.callee, Expression::Identifier(id) if id.name == callee)
                            && call.arguments.is_empty())
        ));
    }

    for (slot, property) in [
        (&recovered[11], "host"),
        (&recovered[12], "ping"),
        (&recovered[13], "players"),
        (&recovered[14], "countryName"),
        (&recovered[15], "countryId"),
        (&recovered[16], "activity"),
        (&recovered[17], "flags"),
    ] {
        assert!(matches!(
            slot,
            Some(RecoveredStmt::Assignment { value: Expression::PropertyAccess(access), .. })
                if access.property == property
                    && matches!(&*access.object, Expression::Call(call)
                        if matches!(&*call.callee, Expression::Identifier(id) if id.name == "worldlistspecific")
                            && matches!(call.arguments.as_slice(), [Expression::Call(arg)]
                                if matches!(&*arg.callee, Expression::Identifier(id) if id.name == "intconst")
                                    && matches!(arg.arguments.as_slice(), [Expression::NumberLiteral(cs2script::transpile::ast::NumberLiteral { value: 302 })])))
        ));
    }
}

#[test]
fn if_getnextsubid_pushes_ui_getter_expression() {
    let instructions = vec![
        InstructionNode {
            index: 0,
            opcode: 0,
            command: "push_constant_int".to_string(),
            operand: OperandNode::Int(42),
        },
        InstructionNode {
            index: 1,
            opcode: 0,
            command: "if_getnextsubid".to_string(),
            operand: OperandNode::Byte(0),
        },
        InstructionNode {
            index: 2,
            opcode: 0,
            command: "return".to_string(),
            operand: OperandNode::Byte(0),
        },
    ];

    let recovered = ExprRecovery::new(
        &instructions,
        &NameTable::new(),
        &NameTable::new(),
        &NameTable::new(),
        &ScriptCatalog::default(),
        &SignatureMap::new(),
    )
    .recover();

    assert!(matches!(
        &recovered[2],
        Some(RecoveredStmt::Return(Some(Expression::Call(call))))
            if matches!(&*call.callee, Expression::Identifier(id) if id.name == "UI.GetNextSubid")
    ));
}

