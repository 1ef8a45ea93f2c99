use cs2script::transpile::ast::{
    ArgumentVariable, BinaryOp, BinaryOperation, CallExpr, Expression, Identifier, LocalVariable,
    NumberLiteral, PropertyAccess, ScriptId, StringLiteral, TypeAnnotation,
};
use cs2script::transpile::runescript::{render_runescript, strip_underscores, RuneScriptContext};
use cs2script::transpile::structured::{AssignmentTarget, StructuredScript, StructuredStmt};

/// A small opcode registry in the `name,id[,gate]` format.
const REGISTRY: &str = "// canonical command names\n\
push_constant_int,0\n\
enum_getoutputcount,3408\n\
cc_deleteall,100\n\
if_deleteall,2100\n\
cc_setparam_string,101\n\
\n\
stackassign_2,9000\n";

fn ctx() -> RuneScriptContext {
    RuneScriptContext::from_opcodes(REGISTRY, vec!["rs3_scrollbar_vertical_7791".to_string()])
}

fn ident(name: &str) -> Expression {
    Expression::Identifier(Identifier { name: name.to_string() })
}

fn num(value: i32) -> Expression {
    Expression::NumberLiteral(NumberLiteral { value })
}

fn call(name: &str, arguments: Vec<Expression>) -> Expression {
    Expression::Call(CallExpr { callee: Box::new(ident(name)), arguments })
}

fn script(
    arguments: Vec<ArgumentVariable>,
    locals: Vec<LocalVariable>,
    return_type: &str,
    body: Vec<StructuredStmt>,
) -> StructuredScript {
    StructuredScript {
        script_id: ScriptId(0),
        raw_name: None,
        header_comments: Vec::new(),
        imports: Vec::new(),
        function_name: "demo".to_string(),
        arguments,
        locals,
        arrays: Vec::new(),
        return_type: return_type.to_string(),
        body,
    }
}

fn arg(name: &str) -> ArgumentVariable {
    ArgumentVariable { index: 0, name: name.to_string(), type_annotation: TypeAnnotation::Number }
}

fn local(name: &str) -> LocalVariable {
    LocalVariable { index: 0, name: name.to_string(), type_annotation: TypeAnnotation::Number }
}

#[test]
fn header_renders_typed_params_and_return() {
    let s = script(
        vec![arg("arg_int_0"), arg("arg_int_1")],
        Vec::new(),
        "number",
        vec![StructuredStmt::Return { value: Some(num(1)) }],
    );
    let out = render_runescript(&s, &ctx());
    assert!(out.starts_with("demo(int $int0, int $int1)(int)\n"), "got: {out}");
    assert!(out.contains("return(1);"));
}

#[test]
fn locals_follow_arguments_in_per_domain_index() {
    let s = script(
        vec![arg("arg_int_0")],
        vec![local("local_int_0")],
        "void",
        vec![StructuredStmt::Assignment {
            target: AssignmentTarget::Identifier("local_int_0".to_string()),
            value: num(7),
        }],
    );
    let out = render_runescript(&s, &ctx());
    assert!(out.contains("def_int $int1 = 7;"), "got: {out}");
}

#[test]
fn arithmetic_value_wraps_in_calc_and_comparison_uses_runescript_ops() {
    let cond = Expression::BinaryOperation(BinaryOperation {
        op: BinaryOp::Lt,
        left: Box::new(ident("local_int_0")),
        right: Box::new(Expression::BinaryOperation(BinaryOperation {
            op: BinaryOp::Add,
            left: Box::new(ident("local_int_1")),
            right: Box::new(num(1)),
        })),
    });
    let s = script(
        Vec::new(),
        vec![local("local_int_0"), local("local_int_1")],
        "void",
        vec![StructuredStmt::If {
            condition: cond,
            then_body: vec![StructuredStmt::Break],
            else_body: None,
        }],
    );
    let out = render_runescript(&s, &ctx());
    assert!(out.contains("if ($int0 < calc($int1 + 1)) {"), "got: {out}");
}

#[test]
fn command_name_recovers_underscores_and_gosub_renders_tilde() {
    let s = script(
        Vec::new(),
        vec![local("local_int_0")],
        "void",
        vec![
            StructuredStmt::Assignment {
                target: AssignmentTarget::Identifier("local_int_0".to_string()),
                value: call("enumgetoutputcount", vec![num(14058)]),
            },
            StructuredStmt::Expr {
                expr: call("rs3_scrollbar_vertical_7791", vec![ident("local_int_0")]),
            },
        ],
    );
    let out = render_runescript(&s, &ctx());
    assert!(out.contains("enum_getoutputcount(14058)"), "got: {out}");
    assert!(out.contains("~rs3_scrollbar_vertical_7791($int0)"), "got: {out}");
}

#[test]
fn ui_call_recovers_canonical_cc_name() {
    let s = script(
        Vec::new(),
        vec![local("local_int_0")],
        "void",
        vec![StructuredStmt::Expr {
            expr: Expression::Call(CallExpr {
                callee: Box::new(Expression::PropertyAccess(PropertyAccess {
                    object: Box::new(ident("UI")),
                    property: "deleteAll".to_string(),
                })),
                arguments: vec![ident("local_int_0")],
            }),
        }],
    );
    let out = render_runescript(&s, &ctx());
    assert!(out.contains("cc_deleteall($int0);"), "got: {out}");
}

#[test]
fn string_literal_and_var_reference() {
    let s = script(
        Vec::new(),
        Vec::new(),
        "void",
        vec![StructuredStmt::If {
            condition: Expression::BinaryOperation(BinaryOperation {
                op: BinaryOp::Eq,
                left: Box::new(ident("varplayerbit_3043")),
                right: Box::new(num(1)),
            }),
            then_body: vec![StructuredStmt::Expr {
                expr: Expression::StringLiteral(StringLiteral { value: "hi".to_string() }),
            }],
            else_body: None,
        }],
    );
    let out = render_runescript(&s, &ctx());
    assert!(out.contains("if (%varplayerbit_3043 = 1) {"), "got: {out}");
    assert!(out.contains("\"hi\";"), "got: {out}");
}

#[test]
fn canonical_commands_are_told_from_pseudo_commands() {
    let c = ctx();
    assert!(c.is_canonical_command("enum_getoutputcount"));
    assert!(c.is_canonical_command("stackassign_2"));
    assert!(!c.is_canonical_command("enumgetoutputcount"));
    assert!(!c.is_canonical_command("stack_assign_3"));
    assert!(!c.is_canonical_command("canonical"));
}

#[test]
fn strip_underscores_drops_every_underscore() {
    let name: Vec<char> = "enum_get_output_count_".chars().collect();
    let stripped: String = strip_underscores(&name).into_iter().collect();
    assert_eq!(stripped, "enumgetoutputcount");
}
