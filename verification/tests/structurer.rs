use cs2script::transpile::ast::{BooleanLiteral, Expression};
use cs2script::transpile::cfg::Block;
use cs2script::transpile::expr_recovery::RecoveredStmt;
use cs2script::transpile::structured::StructuredStmt;
use cs2script::transpile::structurer::{
    contains_goto, structure_with_options, structure_with_report, StructureOptions,
};

fn bool_expr(value: bool) -> Expression {
    Expression::BooleanLiteral(BooleanLiteral { value })
}

fn block(
    index: usize,
    start: usize,
    end: usize,
    statements: Vec<RecoveredStmt>,
    successors: Vec<usize>,
    predecessors: Vec<usize>,
) -> Block {
    Block {
        index,
        start,
        end,
        statements,
        successors,
        predecessors,
        is_loop_header: false,
        loop_target: None,
        is_conditional_branch: false,
        branch_condition: None,
    }
}

#[test]
fn residual_goto_inserts_target_label_without_conservative_fallback() {
    let blocks = vec![
        block(0, 0, 1, vec![RecoveredStmt::Goto(4)], vec![2], vec![]),
        block(1, 2, 3, vec![RecoveredStmt::Return(None)], vec![], vec![]),
        block(
            2,
            4,
            5,
            vec![
                RecoveredStmt::Expression(bool_expr(true)),
                RecoveredStmt::Return(None),
            ],
            vec![],
            vec![0, 1],
        ),
    ];

    let structured = structure_with_report(&blocks);

    assert_eq!(None, structured.fallback_reason);
    assert!(
        structured
            .statements
            .iter()
            .any(|stmt| matches!(stmt, StructuredStmt::Goto { target } if *target == 4))
    );
    assert!(
        structured
            .statements
            .iter()
            .any(|stmt| matches!(stmt, StructuredStmt::Label { target } if *target == 4))
    );
}

#[test]
fn shared_forward_continuation_structures_as_guard_clause() {
    let mut blocks = vec![
        block(
            0,
            0,
            4,
            vec![RecoveredStmt::Branch {
                condition: bool_expr(true),
                target: 5,
                negated: false,
            }],
            vec![2, 1],
            vec![],
        ),
        block(1, 4, 5, vec![RecoveredStmt::Goto(11)], vec![5], vec![0]),
        block(
            2,
            5,
            8,
            vec![RecoveredStmt::Branch {
                condition: bool_expr(false),
                target: 9,
                negated: false,
            }],
            vec![4, 3],
            vec![0],
        ),
        block(3, 8, 9, vec![RecoveredStmt::Goto(11)], vec![5], vec![2]),
        block(4, 9, 11, vec![RecoveredStmt::Return(None)], vec![], vec![2]),
        block(
            5,
            11,
            15,
            vec![RecoveredStmt::Return(None)],
            vec![],
            vec![1, 3],
        ),
    ];
    blocks[0].is_conditional_branch = true;
    blocks[0].branch_condition = Some(bool_expr(true));
    blocks[2].is_conditional_branch = true;
    blocks[2].branch_condition = Some(bool_expr(false));

    let structured = structure_with_report(&blocks);

    let [
        StructuredStmt::If {
            then_body,
            else_body: None,
            ..
        },
        StructuredStmt::Return { .. },
    ] = structured.statements.as_slice()
    else {
        panic!(
            "expected top-level guard clause: {:#?}",
            structured.statements
        );
    };
    assert!(
        matches!(
            then_body.as_slice(),
            [StructuredStmt::If {
                else_body: None,
                ..
            }]
        ),
        "expected nested guard clause: {then_body:#?}"
    );
    assert!(!contains_goto(&structured.statements));
    assert!(
        !structured
            .statements
            .iter()
            .any(|stmt| matches!(stmt, StructuredStmt::Label { .. })),
        "guard clause should not need labels: {:#?}",
        structured.statements
    );
}

#[test]
fn conservative_shared_forward_continuation_keeps_trampoline_goto() {
    let mut blocks = vec![
        block(
            0,
            0,
            4,
            vec![RecoveredStmt::Branch {
                condition: bool_expr(true),
                target: 5,
                negated: false,
            }],
            vec![2, 1],
            vec![],
        ),
        block(1, 4, 5, vec![RecoveredStmt::Goto(11)], vec![5], vec![0]),
        block(
            2,
            5,
            8,
            vec![RecoveredStmt::Branch {
                condition: bool_expr(false),
                target: 9,
                negated: false,
            }],
            vec![4, 3],
            vec![0],
        ),
        block(3, 8, 9, vec![RecoveredStmt::Goto(11)], vec![5], vec![2]),
        block(4, 9, 11, vec![RecoveredStmt::Return(None)], vec![], vec![2]),
        block(
            5,
            11,
            15,
            vec![RecoveredStmt::Return(None)],
            vec![],
            vec![1, 3],
        ),
    ];
    blocks[0].is_conditional_branch = true;
    blocks[0].branch_condition = Some(bool_expr(true));
    blocks[2].is_conditional_branch = true;
    blocks[2].branch_condition = Some(bool_expr(false));

    let structured = structure_with_options(&blocks, StructureOptions::conservative());

    assert_eq!(None, structured.fallback_reason);
    assert!(contains_goto(&structured.statements));
}
