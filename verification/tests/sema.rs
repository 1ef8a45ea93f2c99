use cs2script::transpile::ast::{
    ArgumentVariable, BinaryOp, BinaryOperation, CallExpr, Declaration, Expression, ExpressionStatement,
    Identifier, InstructionNode, LocalVariable, NumberLiteral, OperandNode, Program, ReturnStatement,
    ScriptId, Statement, TypeAnnotation, VarBitId, VarBitRefNode, VarId, VarRefNode,
};
use cs2script::transpile::diagnostics::Severity;
use cs2script::transpile::sema::{var_domain_to_type, Sema};
use cs2script::vars::VarDomain;

fn ident(name: &str) -> Expression {
    Expression::Identifier(Identifier { name: name.to_string() })
}

fn node(index: usize, command: &str, operand: OperandNode) -> InstructionNode {
    InstructionNode { index, opcode: 0, command: command.to_string(), operand }
}

#[test]
fn program_identifiers_are_reported_in_visit_order() {
    let mut program = Program {
        imports: Vec::new(),
        statements: vec![
            Statement::ExpressionStatement(ExpressionStatement {
                expr: Expression::Call(CallExpr {
                    callee: Box::new(ident("f")),
                    arguments: vec![
                        Expression::BinaryOperation(BinaryOperation {
                            op: BinaryOp::Add,
                            left: Box::new(ident("a")),
                            right: Box::new(Expression::NumberLiteral(NumberLiteral { value: 1 })),
                        }),
                        ident("b"),
                    ],
                }),
                semicolon: true,
            }),
            Statement::Comment("note".to_string()),
            Statement::ReturnStatement(ReturnStatement { value: Some(ident("c")) }),
        ],
        comments: Vec::new(),
    };
    let mut sema = Sema::new();
    sema.analyze_program(&mut program);
    let diags = sema.finish().diagnostics;
    let messages: Vec<&str> = diags.iter().map(|d| d.message.as_str()).collect();
    assert_eq!(
        messages,
        vec![
            "undefined identifier: f",
            "undefined identifier: a",
            "undefined identifier: b",
            "undefined identifier: c",
        ]
    );
    assert!(diags.iter().all(|d| d.severity == Severity::Warning));
    assert_eq!(program.statements.len(), 3);
}

#[test]
fn declaration_reports_locals_and_unnamed_references() {
    let mut decl = Declaration {
        script_id: ScriptId(5),
        name: None,
        locals: vec![LocalVariable { index: 0, name: "local_0".to_string(), type_annotation: TypeAnnotation::Number }],
        arguments: vec![ArgumentVariable {
            index: 0,
            name: "arg_int_0".to_string(),
            type_annotation: TypeAnnotation::Number,
        }],
        instructions: vec![
            node(0, "push_int_local", OperandNode::Local(0)),
            node(1, "push_int_local", OperandNode::Local(3)),
            node(2, "push_var", OperandNode::VarRef(VarRefNode {
                domain: VarDomain::Client,
                id: VarId(12),
                name: None,
                is_transmog: false,
            })),
            node(3, "push_var", OperandNode::VarRef(VarRefNode {
                domain: VarDomain::Player,
                id: VarId(1),
                name: Some("varp_1".to_string()),
                is_transmog: false,
            })),
            node(4, "push_varbit", OperandNode::VarBitRef(VarBitRefNode {
                id: VarBitId(77),
                name: None,
                is_transmog: false,
            })),
            node(5, "return", OperandNode::Byte(0)),
        ],
    };
    let mut sema = Sema::default();
    sema.analyze_declaration(&mut decl);
    let diags = sema.finish().diagnostics;
    let found: Vec<(Severity, &str)> = diags.iter().map(|d| (d.severity, d.message.as_str())).collect();
    assert_eq!(
        found,
        vec![
            (Severity::Warning, "undefined local: local_3"),
            (Severity::Note, "unresolved var client:12"),
            (Severity::Note, "unresolved varbit 77"),
        ]
    );
}

#[test]
fn every_var_domain_reads_as_number() {
    assert_eq!(var_domain_to_type(VarDomain::Global), TypeAnnotation::Number);
    assert_eq!(var_domain_to_type(VarDomain::Player), TypeAnnotation::Number);
}
