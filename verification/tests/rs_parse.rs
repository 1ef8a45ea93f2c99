use cs2script::transpile::ast::{
    ArgumentVariable, BinaryOp, BinaryOperation, CallExpr, Expression, Identifier, LocalVariable,
    NumberLiteral, PropertyAccess, ScriptId, StringLiteral, TypeAnnotation,
};
use cs2script::transpile::rs_parse::parse_runescript;
use cs2script::transpile::runescript::{render_runescript, RuneScriptContext};
use cs2script::transpile::structured::{AssignmentTarget, StructuredScript, StructuredStmt};

const REGISTRY: &str = "enum_getoutputcount,3408\ncc_deleteall,100\nif_deleteall,2100\n";

fn ctx() -> RuneScriptContext {
    RuneScriptContext::from_opcodes(REGISTRY, vec!["my_helper".to_string()])
}

fn ident(name: &str) -> Expression {
    Expression::Identifier(Identifier { name: name.to_string() })
}

fn num(value: i32) -> Expression {
    Expression::NumberLiteral(NumberLiteral { value })
}

fn script(
    arguments: Vec<ArgumentVariable>,
    locals: Vec<LocalVariable>,
    return_type: &str,
    body: Vec<StructuredStmt>,
) -> StructuredScript {
    StructuredScript {
        script_id: ScriptId(0),
        raw_name: None,
        header_comments: Vec::new(),
        imports: Vec::new(),
        function_name: "demo".to_string(),
        arguments,
        locals,
        arrays: Vec::new(),
        return_type: return_type.to_string(),
        body,
    }
}

fn arg(name: &str) -> ArgumentVariable {
    ArgumentVariable { index: 0, name: name.to_string(), type_annotation: TypeAnnotation::Number }
}

fn local(name: &str) -> LocalVariable {
    LocalVariable { index: 0, name: name.to_string(), type_annotation: TypeAnnotation::Number }
}

/// Rendering, parsing and rendering again gives the first rendering.
fn assert_roundtrip(s: &StructuredScript) {
    let c = ctx();
    let once = render_runescript(s, &c);
    let parsed = parse_runescript(&once, &c).expect("parse");
    let twice = render_runescript(&parsed, &c);
    assert_eq!(once, twice, "round-trip not idempotent\n---\n{once}");
}

#[test]
fn roundtrip_header_locals_arithmetic() {
    let s = script(
        vec![arg("arg_int_0"), arg("arg_int_1")],
        vec![local("local_int_0")],
        "number",
        vec![
            StructuredStmt::Assignment {
                target: AssignmentTarget::Identifier("local_int_0".to_string()),
                value: Expression::BinaryOperation(BinaryOperation {
                    op: BinaryOp::Add,
                    left: Box::new(ident("arg_int_0")),
                    right: Box::new(num(1)),
                }),
            },
            StructuredStmt::Return { value: Some(ident("local_int_0")) },
        ],
    );
    assert_roundtrip(&s);
}

#[test]
fn roundtrip_control_flow_and_commands() {
    let s = script(
        Vec::new(),
        vec![local("local_int_0")],
        "void",
        vec![
            StructuredStmt::If {
                condition: Expression::BinaryOperation(BinaryOperation {
                    op: BinaryOp::Lt,
                    left: Box::new(ident("local_int_0")),
                    right: Box::new(num(5)),
                }),
                then_body: vec![StructuredStmt::Expr {
                    expr: Expression::Call(CallExpr {
                        callee: Box::new(ident("enumgetoutputcount")),
                        arguments: vec![num(14058)],
                    }),
                }],
                else_body: Some(vec![StructuredStmt::Expr {
                    expr: Expression::Call(CallExpr {
                        callee: Box::new(ident("my_helper")),
                        arguments: vec![ident("local_int_0")],
                    }),
                }]),
            },
            StructuredStmt::Return { value: None },
        ],
    );
    assert_roundtrip(&s);
}

#[test]
fn roundtrip_ui_call_and_string_and_var() {
    let s = script(
        Vec::new(),
        vec![local("local_obj_0")],
        "void",
        vec![
            StructuredStmt::Assignment {
                target: AssignmentTarget::Identifier("local_obj_0".to_string()),
                value: Expression::StringLiteral(StringLiteral { value: "hi there".to_string() }),
            },
            StructuredStmt::Expr {
                expr: Expression::Call(CallExpr {
                    callee: Box::new(Expression::PropertyAccess(PropertyAccess {
                        object: Box::new(ident("UI")),
                        property: "deleteAll".to_string(),
                    })),
                    arguments: vec![ident("varplayer_1186")],
                }),
            },
        ],
    );
    assert_roundtrip(&s);
}

#[test]
fn parses_header_argument_indices() {
    let rs = "demo(int $int0, int $int1)\nreturn;\n";
    let parsed = parse_runescript(rs, &ctx()).expect("parse");
    assert_eq!(parsed.arguments.len(), 2);
    assert_eq!(parsed.arguments[0].name, "arg_int_0");
    assert_eq!(parsed.arguments[1].name, "arg_int_1");
}

#[test]
fn local_index_follows_arguments() {
    let rs = "demo(int $int0)\ndef_int $int1 = 7;\nreturn;\n";
    let parsed = parse_runescript(rs, &ctx()).expect("parse");
    assert_eq!(parsed.locals.len(), 1);
    assert_eq!(parsed.locals[0].name, "local_int_0");
    let StructuredStmt::Assignment { target, .. } = &parsed.body[0] else {
        panic!("expected assignment, got {:?}", parsed.body[0]);
    };
    assert!(matches!(target, AssignmentTarget::Identifier(n) if n == "local_int_0"));
}

#[test]
fn parse_reads_return_types_gosubs_and_arrays() {
    let rs = "proc(string $string0, int $int0)(int, string)\n\
              def_int $arr2(10);\n\
              $arr2(1) = calc($int0 * 2);\n\
              ~my_helper($string0);\n\
              $string0 = \"x\\ty\";\n\
              return($int0);\n";
    let parsed = parse_runescript(rs, &ctx()).expect("parse");
    assert_eq!(parsed.function_name, "proc");
    assert_eq!(parsed.return_type, "[number, string]");
    assert_eq!(parsed.arguments[0].name, "arg_obj_0");
    assert_eq!(parsed.arguments[1].name, "arg_int_0");
    assert_eq!(parsed.arrays, vec![2 << 16]);
    assert_eq!(parsed.imports.len(), 1);
    assert_eq!(parsed.imports[0].module, "./my_helper");
    assert_eq!(parsed.imports[0].named_exports, vec!["my_helper".to_string()]);
    assert_eq!(parsed.body.len(), 5);
    assert!(matches!(&parsed.body[3], StructuredStmt::Assignment {
        value: Expression::StringLiteral(StringLiteral { value }), ..
    } if value == "x\ty"));
    assert!(matches!(&parsed.body[1], StructuredStmt::Assignment {
        target: AssignmentTarget::ArrayAccess { array, .. }, ..
    } if array == "array_2"));
}

#[test]
fn parse_refuses_unreadable_source() {
    assert!(parse_runescript("demo()\nreturn(#);\n", &ctx()).is_err());
    assert!(parse_runescript("demo()\nx = \"open;\n", &ctx()).is_err());
    assert!(parse_runescript("demo()\nif (1) { return;\n", &ctx()).is_err());
    assert!(parse_runescript("", &ctx()).is_err());
    assert!(parse_runescript("demo()\nreturn(99999999999999999999);\n", &ctx()).is_err());
}

#[test]
fn parse_reads_switch_cases_and_negative_literals() {
    let rs = "demo()\nswitch_int (-3) {\ncase 1:\ncase -2:\nreturn;\ncase default:\nbreak;\n}\n";
    let parsed = parse_runescript(rs, &ctx()).expect("parse");
    let StructuredStmt::Switch { expr, cases, default_body } = &parsed.body[0] else {
        panic!("expected switch");
    };
    assert!(matches!(expr, Expression::NumberLiteral(NumberLiteral { value: -3 })));
    assert_eq!(cases.len(), 2);
    assert_eq!(cases[0].value, 1);
    assert!(cases[0].fallthrough);
    assert_eq!(cases[1].value, -2);
    assert!(!cases[1].fallthrough);
    assert!(default_body.is_some());
}

