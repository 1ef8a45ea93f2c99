//! Structured statements (loops, conditionals, switches) and their
//! TypeScript-like source form.
use crate::text::{chars_of, dec_int, dec_nat, push_i64, push_str, push_u64, string_from, string_push};
use crate::transpile::ast::{
    binary_op_text, type_text, ArgumentVariable, BinaryOp, Expression, ImportStatement, LocalVariable,
    ScriptId, TypeAnnotation, UnaryOp,
};
use vstd::prelude::*;

verus! {

broadcast use vstd::string::group_string_axioms;

/// The target of an assignment.
#[derive(Debug)]
pub enum AssignmentTarget {
    Identifier(String),
    ArrayAccess { array: String, index: Expression },
    Opaque(String),
}

/// A statement of structured control flow.
#[derive(Debug)]
pub enum StructuredStmt {
    While { body: Vec<StructuredStmt> },
    If { condition: Expression, then_body: Vec<StructuredStmt>, else_body: Option<Vec<StructuredStmt>> },
    Switch {
        expr: Expression,
        cases: Vec<SwitchCaseStmt>,
        default_body: Option<Vec<StructuredStmt>>,
    },
    Assignment { target: AssignmentTarget, value: Expression },
    Expr { expr: Expression },
    Goto { target: usize },
    /// A jump that carries the values left on the stack.
    StackGoto { target: usize, values: Vec<Expression> },
    /// A jump target for `goto`, at the instruction index `target`.
    Label { target: usize },
    Return { value: Option<Expression> },
    Comment(String),
    Break,
    Continue,
}

/// One case of a structured switch.
#[derive(Debug)]
pub struct SwitchCaseStmt {
    pub value: i32,
    pub body: Vec<StructuredStmt>,
    /// The case shares the next case's body.
    pub fallthrough: bool,
    /// The body is followed by a `break`.
    pub break_after: bool,
}

/// A statement unconditionally leaves its block: it returns, breaks,
/// continues or jumps (with or without stack values), or is an `if` with an `else` whose arms both end in
/// such a statement.
pub open spec fn terminates_spec(s: StructuredStmt) -> bool
    decreases s,
{
    match s {
        StructuredStmt::Return { .. } => true,
        StructuredStmt::Break => true,
        StructuredStmt::Continue => true,
        StructuredStmt::Goto { .. } => true,
        StructuredStmt::StackGoto { .. } => true,
        StructuredStmt::If { then_body, else_body, .. } => match else_body {
            Some(e) => {
                &&& then_body@.len() > 0
                &&& e@.len() > 0
                &&& terminates_spec(
                    {
                        proof {
                            assert(decreases_to!(s => then_body));
                            assert(decreases_to!(then_body => then_body@));
                            assert(decreases_to!(then_body@ => then_body@[then_body@.len() - 1]));
                        }
                        then_body@[then_body@.len() - 1]
                    },
                )
                &&& terminates_spec(
                    {
                        proof {
                            assert(decreases_to!(s => else_body));
                            assert(decreases_to!(else_body => e));
                            assert(decreases_to!(e => e@));
                            assert(decreases_to!(e@ => e@[e@.len() - 1]));
                        }
                        e@[e@.len() - 1]
                    },
                )
            },
            None => false,
        },
        _ => false,
    }
}

/// Whether a statement unconditionally leaves its block.
pub fn stmt_terminates(stmt: &StructuredStmt) -> (r: bool)
    ensures
        r == terminates_spec(*stmt),
    decreases stmt,
{
    match stmt {
        StructuredStmt::Return { .. } => true,
        StructuredStmt::Break => true,
        StructuredStmt::Continue => true,
        StructuredStmt::Goto { .. } => true,
        StructuredStmt::StackGoto { .. } => true,
        StructuredStmt::If { then_body, else_body, .. } => match else_body {
            Some(e) => {
                if then_body.len() == 0 || e.len() == 0 {
                    return false;
                }
                proof {
                    assert(decreases_to!(stmt => then_body@[then_body@.len() - 1]));
                    assert(decreases_to!(stmt => e@[e@.len() - 1]));
                }
                stmt_terminates(&then_body[then_body.len() - 1]) && stmt_terminates(
                    &e[e.len() - 1],
                )
            },
            None => false,
        },
        _ => false,
    }
}

/// Whether a statement sequence unconditionally leaves its block: its
/// last statement does.
pub fn stmts_terminate(stmts: &[StructuredStmt]) -> (r: bool)
    ensures
        r == (stmts@.len() > 0 && terminates_spec(stmts@[stmts@.len() - 1])),
{
    if stmts.len() == 0 {
        false
    } else {
        stmt_terminates(&stmts[stmts.len() - 1])
    }
}

// ---------------------------------------------------------------------------
// Source form of expressions
// ---------------------------------------------------------------------------

/// The escape of one character inside a double-quoted string.
pub open spec fn escape_char(c: char) -> Seq<char> {
    if c == '\\' {
        seq!['\\', '\\']
    } else if c == '"' {
        seq!['\\', '"']
    } else if c == '\n' {
        seq!['\\', 'n']
    } else if c == '\r' {
        seq!['\\', 'r']
    } else if c == '\t' {
        seq!['\\', 't']
    } else {
        seq![c]
    }
}

/// A string's characters each escaped for a double-quoted literal.
pub open spec fn escape_seq(s: Seq<char>) -> Seq<char>
    decreases s.len(),
{
    if s.len() == 0 {
        Seq::empty()
    } else {
        escape_seq(s.drop_last()) + escape_char(s.last())
    }
}

/// Items joined with `, `.
pub open spec fn join_names(s: Seq<String>) -> Seq<char>
    decreases s.len(),
{
    if s.len() == 0 {
        Seq::empty()
    } else if s.len() == 1 {
        s[0]@
    } else {
        join_names(s.drop_last()) + ", "@ + s.last()@
    }
}

/// `text`, in parentheses unless `e` is an atom, a call or an access.
pub open spec fn wrap_text(e: Expression, text: Seq<char>) -> Seq<char> {
    if e is Identifier || e is NumberLiteral || e is BigIntLiteral || e is StringLiteral
        || e is BooleanLiteral || e is Call || e is PropertyAccess || e is ArrayAccess {
        text
    } else {
        "("@ + text + ")"@
    }
}

/// The source form of an expression.
pub open spec fn fmt_expr(e: Expression) -> Seq<char>
    decreases e,
{
    match e {
        Expression::NumberLiteral(v) => dec_int(v.value as int),
        Expression::BigIntLiteral(v) => dec_int(v.value as int) + "n"@,
        Expression::StringLiteral(v) => "\""@ + escape_seq(v.value@) + "\""@,
        Expression::BooleanLiteral(v) => if v.value {
            "true"@
        } else {
            "false"@
        },
        Expression::Identifier(i) => i.name@,
        Expression::ArrayAccess(a) => wrap_text(*a.array, fmt_expr(*a.array)) + "["@ + fmt_expr(
            *a.index,
        ) + "]"@,
        Expression::PropertyAccess(p) => wrap_text(*p.object, fmt_expr(*p.object)) + "."@
            + p.property@,
        Expression::Call(c) => wrap_text(*c.callee, fmt_expr(*c.callee)) + "("@ + fmt_list(
            {
                proof {
                    assert(decreases_to!(e => c));
                    assert(decreases_to!(c => c.arguments));
                    assert(decreases_to!(c.arguments => c.arguments@));
                }
                c.arguments@
            },
        ) + ")"@,
        Expression::CallbackLiteral(cb) => "callback(\""@ + escape_seq(cb.script@) + "\", ["@
            + fmt_list(
            {
                proof {
                    assert(decreases_to!(e => cb));
                    assert(decreases_to!(cb => cb.arguments));
                    assert(decreases_to!(cb.arguments => cb.arguments@));
                }
                cb.arguments@
            },
        ) + "], ["@ + join_names(cb.watchers@) + "], \""@ + escape_seq(cb.raw_descriptor@)
            + "\")"@,
        Expression::BinaryOperation(b) => "("@ + fmt_expr(*b.left) + " "@ + binary_op_text(b.op)
            + " "@ + fmt_expr(*b.right) + ")"@,
        Expression::UnaryOperation(u) => "("@ + (match u.op {
            UnaryOp::Neg => "-"@,
            UnaryOp::Not => "!"@,
        }) + fmt_expr(*u.operand) + ")"@,
        Expression::PushOperation(p) => "push("@ + fmt_expr(*p.value) + ")"@,
        Expression::PopOperation(p) => match p.target {
            Some(t) => "pop("@ + fmt_expr(*t) + ")"@,
            None => "pop()"@,
        },
        Expression::GotoExpr(g) => "goto("@ + dec_nat(g.target as nat) + ")"@,
    }
}

/// Expressions in source form, joined with `, `.
pub open spec fn fmt_list(s: Seq<Expression>) -> Seq<char>
    decreases s,
{
    if s.len() == 0 {
        Seq::empty()
    } else if s.len() == 1 {
        fmt_expr(s[0])
    } else {
        fmt_list(s.subrange(0, s.len() - 1)) + ", "@ + fmt_expr(s[s.len() - 1])
    }
}

/// Appends `value` escaped for a double-quoted literal.
pub(crate) fn push_escaped(out: &mut String, value: &str)
    ensures
        final(out)@ == old(out)@ + escape_seq(value@),
{
    let cs = chars_of(value);
    let mut i: usize = 0;
    while i < cs.len()
        invariant
            i <= cs@.len(),
            cs@ == value@,
            out@ == old(out)@ + escape_seq(cs@.take(i as int)),
        decreases cs@.len() - i,
    {
        let c = cs[i];
        if c == '\\' {
            push_str(out, "\\\\");
        } else if c == '"' {
            push_str(out, "\\\"");
        } else if c == '\n' {
            push_str(out, "\\n");
        } else if c == '\r' {
            push_str(out, "\\r");
        } else if c == '\t' {
            push_str(out, "\\t");
        } else {
            string_push(out, c);
        }
        proof {
            reveal_strlit("\\\\");
            reveal_strlit("\\\"");
            reveal_strlit("\\n");
            reveal_strlit("\\r");
            reveal_strlit("\\t");
            assert(cs@.take(i + 1).drop_last() =~= cs@.take(i as int));
            assert(out@ =~= old(out)@ + escape_seq(cs@.take(i + 1)));
        }
        i = i + 1;
    }
    proof {
        assert(cs@.take(cs@.len() as int) =~= cs@);
    }
}

/// Appends the names joined with `, `.
pub(crate) fn push_joined_names(out: &mut String, names: &Vec<String>)
    ensures
        final(out)@ == old(out)@ + join_names(names@),
{
    let mut i: usize = 0;
    while i < names.len()
        invariant
            i <= names@.len(),
            out@ == old(out)@ + join_names(names@.take(i as int)),
        decreases names@.len() - i,
    {
        if i > 0 {
            push_str(out, ", ");
        }
        push_str(out, names[i].as_str());
        proof {
            assert(names@.take(i + 1).drop_last() =~= names@.take(i as int));
            assert(out@ =~= old(out)@ + join_names(names@.take(i + 1)));
        }
        i = i + 1;
    }
    proof {
        assert(names@.take(names@.len() as int) =~= names@);
    }
}

/// Appends the expressions in source form, joined with `, `.
fn push_expr_list(out: &mut String, e: &Expression, args: &Vec<Expression>)
    requires
        decreases_to!(*e => args@),
    ensures
        final(out)@ == old(out)@ + fmt_list(args@),
    decreases e, 0nat,
{
    let mut i: usize = 0;
    while i < args.len()
        invariant
            i <= args@.len(),
            decreases_to!(*e => args@),
            out@ == old(out)@ + fmt_list(args@.take(i as int)),
        decreases args@.len() - i,
    {
        if i > 0 {
            push_str(out, ", ");
        }
        proof {
            assert(decreases_to!(args@ => args@[i as int]));
            assert(decreases_to!(*e => args@[i as int]));
        }
        let t = format_expression(&args[i]);
        push_str(out, t.as_str());
        proof {
            assert(args@.take(i + 1).subrange(0, i as int) =~= args@.take(i as int));
            assert(args@.take(i + 1)[i as int] == args@[i as int]);
            assert(out@ =~= old(out)@ + fmt_list(args@.take(i + 1)));
        }
        i = i + 1;
    }
    proof {
        assert(args@.take(args@.len() as int) =~= args@);
    }
}

/// `text` in parentheses unless `e` is an atom, a call or an access.
fn wrapped(e: &Expression, text: String) -> (r: String)
    ensures
        r@ == wrap_text(*e, text@),
{
    match e {
        Expression::Identifier(_) | Expression::NumberLiteral(_) | Expression::BigIntLiteral(_)
        | Expression::StringLiteral(_) | Expression::BooleanLiteral(_) | Expression::Call(_)
        | Expression::PropertyAccess(_) | Expression::ArrayAccess(_) => text,
        _ => {
            let mut s = string_from("(");
            push_str(&mut s, text.as_str());
            push_str(&mut s, ")");
            s
        },
    }
}

/// The source form of an expression.
pub fn format_expression(expr: &Expression) -> (r: String)
    ensures
        r@ == fmt_expr(*expr),
    decreases expr, 1nat,
{
    match expr {
        Expression::NumberLiteral(v) => crate::text::fmt_i64(v.value as i64),
        Expression::BigIntLiteral(v) => {
            let mut s = crate::text::fmt_i64(v.value);
            push_str(&mut s, "n");
            s
        },
        Expression::StringLiteral(v) => {
            let mut s = string_from("\"");
            push_escaped(&mut s, v.value.as_str());
            push_str(&mut s, "\"");
            s
        },
        Expression::BooleanLiteral(v) => if v.value {
            string_from("true")
        } else {
            string_from("false")
        },
        Expression::Identifier(i) => i.name.clone(),
        Expression::ArrayAccess(a) => {
            let inner = format_expression(&a.array);
            let mut s = wrapped(&a.array, inner);
            push_str(&mut s, "[");
            let idx = format_expression(&a.index);
            push_str(&mut s, idx.as_str());
            push_str(&mut s, "]");
            s
        },
        Expression::PropertyAccess(p) => {
            let inner = format_expression(&p.object);
            let mut s = wrapped(&p.object, inner);
            push_str(&mut s, ".");
            push_str(&mut s, p.property.as_str());
            s
        },
        Expression::Call(c) => {
            let inner = format_expression(&c.callee);
            let mut s = wrapped(&c.callee, inner);
            push_str(&mut s, "(");
            proof {
                assert(decreases_to!(*expr => expr->Call_0));
                assert(decreases_to!(expr->Call_0 => expr->Call_0.arguments));
                assert(decreases_to!(c.arguments => c.arguments@));
            }
            push_expr_list(&mut s, expr, &c.arguments);
            push_str(&mut s, ")");
            s
        },
        Expression::CallbackLiteral(cb) => {
            let mut s = string_from("callback(\"");
            push_escaped(&mut s, cb.script.as_str());
            push_str(&mut s, "\", [");
            proof {
                assert(decreases_to!(*expr => expr->CallbackLiteral_0));
                assert(decreases_to!(expr->CallbackLiteral_0 => expr->CallbackLiteral_0.arguments));
                assert(decreases_to!(cb.arguments => cb.arguments@));
            }
            push_expr_list(&mut s, expr, &cb.arguments);
            push_str(&mut s, "], [");
            push_joined_names(&mut s, &cb.watchers);
            push_str(&mut s, "], \"");
            push_escaped(&mut s, cb.raw_descriptor.as_str());
            push_str(&mut s, "\")");
            s
        },
        Expression::BinaryOperation(b) => {
            let mut s = string_from("(");
            let l = format_expression(&b.left);
            push_str(&mut s, l.as_str());
            push_str(&mut s, " ");
            push_str(&mut s, b.op.as_str());
            push_str(&mut s, " ");
            let r = format_expression(&b.right);
            push_str(&mut s, r.as_str());
            push_str(&mut s, ")");
            s
        },
        Expression::UnaryOperation(u) => {
            let mut s = string_from("(");
            push_str(&mut s, u.op.as_str());
            let o = format_expression(&u.operand);
            push_str(&mut s, o.as_str());
            push_str(&mut s, ")");
            s
        },
        Expression::PushOperation(p) => {
            let mut s = string_from("push(");
            let v = format_expression(&p.value);
            push_str(&mut s, v.as_str());
            push_str(&mut s, ")");
            s
        },
        Expression::PopOperation(p) => match &p.target {
            Some(t) => {
                let mut s = string_from("pop(");
                let v = format_expression(t);
                push_str(&mut s, v.as_str());
                push_str(&mut s, ")");
                s
            },
            None => string_from("pop()"),
        },
        Expression::GotoExpr(g) => {
            let mut s = string_from("goto(");
            push_u64(&mut s, g.target as u64);
            push_str(&mut s, ")");
            s
        },
    }
}

/// The source form of an assignment target.
pub fn format_assignment_target(target: &AssignmentTarget) -> (r: String)
    ensures
        r@ == (match *target {
            AssignmentTarget::Identifier(name) => name@,
            AssignmentTarget::Opaque(name) => name@,
            AssignmentTarget::ArrayAccess { array, index } => array@ + "["@ + fmt_expr(index) + "]"@,
        }),
{
    match target {
        AssignmentTarget::Identifier(name) => name.clone(),
        AssignmentTarget::Opaque(name) => name.clone(),
        AssignmentTarget::ArrayAccess { array, index } => {
            let mut s = array.clone();
            push_str(&mut s, "[");
            let i = format_expression(index);
            push_str(&mut s, i.as_str());
            push_str(&mut s, "]");
            s
        },
    }
}

/// The type a declared name stands for, after trimming; unknown names are
/// `Unknown`.
pub fn parse_type_annotation(value: &str) -> (r: TypeAnnotation)
    ensures
        r == (if crate::text::trim(value@) == "number"@ {
            TypeAnnotation::Number
        } else if crate::text::trim(value@) == "bigint"@ {
            TypeAnnotation::BigInt
        } else if crate::text::trim(value@) == "string"@ {
            TypeAnnotation::String
        } else if crate::text::trim(value@) == "boolean"@ {
            TypeAnnotation::Boolean
        } else {
            TypeAnnotation::Unknown
        }),
{
    let v = chars_of(value);
    let t = crate::text::trim_chars(&v);
    if crate::text::chars_eq(&t, "number") {
        TypeAnnotation::Number
    } else if crate::text::chars_eq(&t, "bigint") {
        TypeAnnotation::BigInt
    } else if crate::text::chars_eq(&t, "string") {
        TypeAnnotation::String
    } else if crate::text::chars_eq(&t, "boolean") {
        TypeAnnotation::Boolean
    } else {
        TypeAnnotation::Unknown
    }
}


// ---------------------------------------------------------------------------
// Source form of statements and scripts
// ---------------------------------------------------------------------------

/// One level deeper (the count stops at the largest `usize`).
pub open spec fn inc(level: nat) -> nat {
    if level < usize::MAX {
        level + 1
    } else {
        level
    }
}

/// Four spaces per level.
pub open spec fn indent_text(level: nat) -> Seq<char>
    decreases level,
{
    if level == 0 {
        Seq::empty()
    } else {
        indent_text((level - 1) as nat) + "    "@
    }
}

/// The source lines of a statement at indentation `level`; comments are
/// left out of the canonical form.
pub open spec fn render_stmt(s: StructuredStmt, level: nat, canonical: bool) -> Seq<char>
    decreases s,
{
    match s {
        StructuredStmt::While { body } => indent_text(level) + "while (true) {\n"@ + render_list(
            {
                proof {
                    assert(decreases_to!(s => body));
                    assert(decreases_to!(body => body@));
                }
                body@
            },
            inc(level),
            canonical,
        ) + indent_text(level) + "}\n"@,
        StructuredStmt::If { condition, then_body, else_body } => indent_text(level) + "if ("@ + fmt_expr(
            condition,
        ) + ") {\n"@ + render_list(
            {
                proof {
                    assert(decreases_to!(s => then_body));
                    assert(decreases_to!(then_body => then_body@));
                }
                then_body@
            },
            inc(level),
            canonical,
        ) + (match else_body {
            Some(e) => indent_text(level) + "} else {\n"@ + render_list(
                {
                    proof {
                        assert(decreases_to!(s => else_body));
                        assert(decreases_to!(else_body => e));
                        assert(decreases_to!(e => e@));
                    }
                    e@
                },
                inc(level),
                canonical,
            ),
            None => Seq::empty(),
        }) + indent_text(level) + "}\n"@,
        StructuredStmt::Switch { expr, cases, default_body } => indent_text(level) + "switch ("@
            + fmt_expr(expr) + ") {\n"@ + render_cases(
            {
                proof {
                    assert(decreases_to!(s => cases));
                    assert(decreases_to!(cases => cases@));
                }
                cases@
            },
            inc(level),
            canonical,
        ) + (match default_body {
            Some(d) => indent_text(inc(level)) + "default:\n"@ + render_list(
                {
                    proof {
                        assert(decreases_to!(s => default_body));
                        assert(decreases_to!(default_body => d));
                        assert(decreases_to!(d => d@));
                    }
                    d@
                },
                inc(inc(level)),
                canonical,
            ),
            None => Seq::empty(),
        }) + indent_text(level) + "}\n"@,
        StructuredStmt::Assignment { target, value } => indent_text(level) + (match target {
            AssignmentTarget::Identifier(name) => name@,
            AssignmentTarget::Opaque(name) => name@,
            AssignmentTarget::ArrayAccess { array, index } => array@ + "["@ + fmt_expr(index) + "]"@,
        }) + " = "@ + fmt_expr(value) + ";\n"@,
        StructuredStmt::Expr { expr } => indent_text(level) + fmt_expr(expr) + ";\n"@,
        StructuredStmt::Goto { target } => indent_text(level) + "goto("@ + dec_nat(target as nat)
            + ");\n"@,
        StructuredStmt::StackGoto { target, values } => indent_text(level) + "stackgoto("@ + dec_nat(
            target as nat,
        ) + (if values@.len() == 0 {
            Seq::empty()
        } else {
            ", "@ + fmt_list(values@)
        }) + ");\n"@,
        StructuredStmt::Label { target } => indent_text(level) + "label("@ + dec_nat(target as nat)
            + ");\n"@,
        StructuredStmt::Return { value } => indent_text(level) + "return"@ + (match value {
            Some(v) => " "@ + fmt_expr(v),
            None => Seq::empty(),
        }) + ";\n"@,
        StructuredStmt::Comment(text) => if canonical {
            Seq::empty()
        } else {
            indent_text(level) + "// "@ + text@ + "\n"@
        },
        StructuredStmt::Break => indent_text(level) + "break;\n"@,
        StructuredStmt::Continue => indent_text(level) + "continue;\n"@,
    }
}

/// The source lines of statements, in order.
pub open spec fn render_list(ss: Seq<StructuredStmt>, level: nat, canonical: bool) -> Seq<char>
    decreases ss,
{
    if ss.len() == 0 {
        Seq::empty()
    } else {
        render_list(ss.subrange(0, ss.len() - 1), level, canonical) + render_stmt(
            ss[ss.len() - 1],
            level,
            canonical,
        )
    }
}

/// The source lines of switch cases: a label, the body one level deeper,
/// and `break;` where the case ends in one.
pub open spec fn render_cases(cs: Seq<SwitchCaseStmt>, level: nat, canonical: bool) -> Seq<char>
    decreases cs,
{
    if cs.len() == 0 {
        Seq::empty()
    } else {
        render_cases(cs.subrange(0, cs.len() - 1), level, canonical) + indent_text(level) + "case "@
            + dec_int(cs[cs.len() - 1].value as int) + ":\n"@ + render_list(
            {
                proof {
                    assert(decreases_to!(cs => cs[cs.len() - 1]));
                    assert(decreases_to!(cs[cs.len() - 1] => cs[cs.len() - 1].body));
                    assert(decreases_to!(cs[cs.len() - 1].body => cs[cs.len() - 1].body@));
                }
                cs[cs.len() - 1].body@
            },
            inc(level),
            canonical,
        ) + (if cs[cs.len() - 1].break_after {
            indent_text(inc(level)) + "break;\n"@
        } else {
            Seq::empty()
        })
    }
}

fn push_indent(out: &mut String, level: usize)
    ensures
        final(out)@ == old(out)@ + indent_text(level as nat),
    decreases level,
{
    if level > 0 {
        push_indent(out, level - 1);
        push_str(out, "    ");
    }
}

/// Appends the source lines of `s` at indentation `level`.
#[verifier::spinoff_prover]
#[verifier::rlimit(100)]
fn write_stmt(out: &mut String, s: &StructuredStmt, level: usize, canonical: bool)
    ensures
        final(out)@ == old(out)@ + render_stmt(*s, level as nat, canonical),
    decreases s, 2nat,
{
    let mut piece = String::new();
    let deeper = level.saturating_add(1);
    match s {
        StructuredStmt::While { body } => {
            push_indent(&mut piece, level);
            push_str(&mut piece, "while (true) {\n");
            proof {
                assert(decreases_to!(*s => s->While_body));
                assert(decreases_to!(body => body@));
            }
            write_list(&mut piece, s, body, deeper, canonical);
            push_indent(&mut piece, level);
            push_str(&mut piece, "}\n");
        },
        StructuredStmt::If { condition, then_body, else_body } => {
            push_indent(&mut piece, level);
            push_str(&mut piece, "if (");
            let c = format_expression(condition);
            push_str(&mut piece, c.as_str());
            push_str(&mut piece, ") {\n");
            proof {
                assert(decreases_to!(*s => s->If_then_body));
                assert(decreases_to!(then_body => then_body@));
            }
            write_list(&mut piece, s, then_body, deeper, canonical);
            let mut tail = String::new();
            if let Some(e) = else_body {
                push_indent(&mut tail, level);
                push_str(&mut tail, "} else {\n");
                proof {
                    assert(decreases_to!(*s => s->If_else_body));
                    assert(decreases_to!(s->If_else_body => e));
                    assert(decreases_to!(e => e@));
                }
                write_list(&mut tail, s, e, deeper, canonical);
            }
            push_str(&mut piece, tail.as_str());
            push_indent(&mut piece, level);
            push_str(&mut piece, "}\n");
        },
        StructuredStmt::Switch { expr, cases, default_body } => {
            push_indent(&mut piece, level);
            push_str(&mut piece, "switch (");
            let c = format_expression(expr);
            push_str(&mut piece, c.as_str());
            push_str(&mut piece, ") {\n");
            proof {
                assert(decreases_to!(*s => s->Switch_cases));
                assert(decreases_to!(cases => cases@));
            }
            write_cases(&mut piece, s, cases, deeper, canonical);
            let mut tail = String::new();
            if let Some(d) = default_body {
                push_indent(&mut tail, deeper);
                push_str(&mut tail, "default:\n");
                proof {
                    assert(decreases_to!(*s => s->Switch_default_body));
                    assert(decreases_to!(s->Switch_default_body => d));
                    assert(decreases_to!(d => d@));
                }
                write_list(&mut tail, s, d, deeper.saturating_add(1), canonical);
            }
            push_str(&mut piece, tail.as_str());
            push_indent(&mut piece, level);
            push_str(&mut piece, "}\n");
        },
        StructuredStmt::Assignment { target, value } => {
            push_indent(&mut piece, level);
            let t = format_assignment_target(target);
            push_str(&mut piece, t.as_str());
            push_str(&mut piece, " = ");
            let v = format_expression(value);
            push_str(&mut piece, v.as_str());
            push_str(&mut piece, ";\n");
        },
        StructuredStmt::Expr { expr } => {
            push_indent(&mut piece, level);
            let v = format_expression(expr);
            push_str(&mut piece, v.as_str());
            push_str(&mut piece, ";\n");
        },
        StructuredStmt::Goto { target } => {
            push_indent(&mut piece, level);
            push_str(&mut piece, "goto(");
            push_u64(&mut piece, *target as u64);
            push_str(&mut piece, ");\n");
        },
        StructuredStmt::StackGoto { target, values } => {
            push_indent(&mut piece, level);
            push_str(&mut piece, "stackgoto(");
            push_u64(&mut piece, *target as u64);
            let mut tail = String::new();
            if values.len() > 0 {
                push_str(&mut tail, ", ");
                let text = format_expression_list(values);
                push_str(&mut tail, text.as_str());
            }
            push_str(&mut piece, tail.as_str());
            push_str(&mut piece, ");\n");
        },
        StructuredStmt::Label { target } => {
            push_indent(&mut piece, level);
            push_str(&mut piece, "label(");
            push_u64(&mut piece, *target as u64);
            push_str(&mut piece, ");\n");
        },
        StructuredStmt::Return { value } => {
            push_indent(&mut piece, level);
            push_str(&mut piece, "return");
            let mut tail = String::new();
            if let Some(v) = value {
                push_str(&mut tail, " ");
                let t = format_expression(v);
                push_str(&mut tail, t.as_str());
            }
            push_str(&mut piece, tail.as_str());
            push_str(&mut piece, ";\n");
        },
        StructuredStmt::Comment(text) => {
            if !canonical {
                push_indent(&mut piece, level);
                push_str(&mut piece, "// ");
                push_str(&mut piece, text.as_str());
                push_str(&mut piece, "\n");
            }
        },
        StructuredStmt::Break => {
            push_indent(&mut piece, level);
            push_str(&mut piece, "break;\n");
        },
        StructuredStmt::Continue => {
            push_indent(&mut piece, level);
            push_str(&mut piece, "continue;\n");
        },
    }
    proof {
        assert(piece@ =~= render_stmt(*s, level as nat, canonical));
    }
    push_str(out, piece.as_str());
}

/// Appends the source lines of `stmts`, which lie inside `owner`.
fn write_list(out: &mut String, owner: &StructuredStmt, stmts: &Vec<StructuredStmt>, level: usize, canonical: bool)
    requires
        decreases_to!(*owner => stmts@),
    ensures
        final(out)@ == old(out)@ + render_list(stmts@, level as nat, canonical),
    decreases owner, 0nat,
{
    let mut acc = String::new();
    let mut i: usize = 0;
    while i < stmts.len()
        invariant
            i <= stmts@.len(),
            decreases_to!(*owner => stmts@),
            acc@ == render_list(stmts@.take(i as int), level as nat, canonical),
        decreases stmts@.len() - i,
    {
        proof {
            assert(decreases_to!(stmts@ => stmts@[i as int]));
        }
        let ghost prev = acc@;
        write_stmt(&mut acc, &stmts[i], level, canonical);
        proof {
            assert(stmts@.take(i + 1).subrange(0, i as int) =~= stmts@.take(i as int));
            assert(stmts@.take(i + 1)[i as int] == stmts@[i as int]);
            assert(acc@ == render_list(stmts@.take(i + 1), level as nat, canonical));
        }
        i = i + 1;
    }
    proof {
        assert(stmts@.take(stmts@.len() as int) =~= stmts@);
    }
    push_str(out, acc.as_str());
}

/// Appends the source lines of switch cases, which lie inside `owner`.
#[verifier::spinoff_prover]
#[verifier::rlimit(100)]
fn write_cases(out: &mut String, owner: &StructuredStmt, cases: &Vec<SwitchCaseStmt>, level: usize, canonical: bool)
    requires
        decreases_to!(*owner => cases@),
    ensures
        final(out)@ == old(out)@ + render_cases(cases@, level as nat, canonical),
    decreases owner, 1nat,
{
    let deeper = level.saturating_add(1);
    let mut acc = String::new();
    let mut i: usize = 0;
    while i < cases.len()
        invariant
            i <= cases@.len(),
            deeper as nat == inc(level as nat),
            decreases_to!(*owner => cases@),
            acc@ == render_cases(cases@.take(i as int), level as nat, canonical),
        decreases cases@.len() - i,
    {
        let mut piece = String::new();
        push_indent(&mut piece, level);
        push_str(&mut piece, "case ");
        push_i64(&mut piece, cases[i].value as i64);
        push_str(&mut piece, ":\n");
        proof {
            assert(decreases_to!(cases@ => cases@[i as int]));
            assert(decreases_to!(cases@[i as int] => cases@[i as int].body));
            assert(decreases_to!(cases@[i as int].body => cases@[i as int].body@));
            assert(decreases_to!(*owner => cases@[i as int].body@));
        }
        write_list(&mut piece, owner, &cases[i].body, deeper, canonical);
        let mut tail = String::new();
        if cases[i].break_after {
            push_indent(&mut tail, deeper);
            push_str(&mut tail, "break;\n");
        }
        push_str(&mut piece, tail.as_str());
        let ghost prev = acc@;
        push_str(&mut acc, piece.as_str());
        proof {
            let t = cases@.take(i + 1);
            assert(t.subrange(0, i as int) =~= cases@.take(i as int));
            assert(t[i as int] == cases@[i as int]);
            assert(t.len() == i + 1);
            assert(render_cases(t, level as nat, canonical) == render_cases(
                cases@.take(i as int),
                level as nat,
                canonical,
            ) + indent_text(level as nat) + "case "@ + dec_int(cases@[i as int].value as int) + ":\n"@
                + render_list(cases@[i as int].body@, inc(level as nat), canonical) + (if cases@[i as int].break_after {
                indent_text(inc(level as nat)) + "break;\n"@
            } else {
                Seq::empty()
            }));
            assert(acc@ =~= render_cases(t, level as nat, canonical));
        }
        i = i + 1;
    }
    proof {
        assert(cases@.take(cases@.len() as int) =~= cases@);
    }
    push_str(out, acc.as_str());
}

/// Expressions in source form, joined with `, `.
fn format_expression_list(values: &Vec<Expression>) -> (r: String)
    ensures
        r@ == fmt_list(values@),
{
    let mut out = String::new();
    let mut i: usize = 0;
    while i < values.len()
        invariant
            i <= values@.len(),
            out@ == fmt_list(values@.take(i as int)),
        decreases values@.len() - i,
    {
        if i > 0 {
            push_str(&mut out, ", ");
        }
        let t = format_expression(&values[i]);
        push_str(&mut out, t.as_str());
        proof {
            assert(values@.take(i + 1).subrange(0, i as int) =~= values@.take(i as int));
            assert(values@.take(i + 1)[i as int] == values@[i as int]);
        }
        i = i + 1;
    }
    proof {
        assert(values@.take(values@.len() as int) =~= values@);
    }
    out
}


/// A script in structured form, ready to be written as source.
#[derive(Debug)]
pub struct StructuredScript {
    pub script_id: ScriptId,
    pub raw_name: Option<String>,
    pub header_comments: Vec<String>,
    pub imports: Vec<ImportStatement>,
    pub function_name: String,
    pub arguments: Vec<ArgumentVariable>,
    pub locals: Vec<LocalVariable>,
    pub arrays: Vec<u32>,
    pub return_type: String,
    pub body: Vec<StructuredStmt>,
}

/// `// c` lines.
pub open spec fn comments_text(cs: Seq<String>) -> Seq<char>
    decreases cs.len(),
{
    if cs.len() == 0 {
        Seq::empty()
    } else {
        comments_text(cs.drop_last()) + "// "@ + cs.last()@ + "\n"@
    }
}

/// An import line.
pub open spec fn import_text(i: ImportStatement) -> Seq<char> {
    (if i.is_type_only {
        "import type"@
    } else {
        "import"@
    }) + " { "@ + join_names(i.named_exports@) + " } from '"@ + i.module@ + "';\n"@
}

/// The import lines.
pub open spec fn imports_text(is: Seq<ImportStatement>) -> Seq<char>
    decreases is.len(),
{
    if is.len() == 0 {
        Seq::empty()
    } else {
        imports_text(is.drop_last()) + import_text(is.last())
    }
}

/// `name: type` for each argument, joined with `, `.
pub open spec fn args_text(a: Seq<ArgumentVariable>) -> Seq<char>
    decreases a.len(),
{
    if a.len() == 0 {
        Seq::empty()
    } else if a.len() == 1 {
        a[0].name@ + ": "@ + type_text(a[0].type_annotation)
    } else {
        args_text(a.drop_last()) + ", "@ + a.last().name@ + ": "@ + type_text(a.last().type_annotation)
    }
}

/// The local declarations.
pub open spec fn locals_text(l: Seq<LocalVariable>) -> Seq<char>
    decreases l.len(),
{
    if l.len() == 0 {
        Seq::empty()
    } else {
        locals_text(l.drop_last()) + "    let "@ + l.last().name@ + ": "@ + type_text(
            l.last().type_annotation,
        ) + ";\n"@
    }
}

/// The array declarations.
pub open spec fn arrays_text(a: Seq<u32>) -> Seq<char>
    decreases a.len(),
{
    if a.len() == 0 {
        Seq::empty()
    } else {
        arrays_text(a.drop_last()) + "    let array_"@ + dec_nat(a.last() as nat) + ": number[] = [];\n"@
    }
}

/// A newline after a non-empty section.
pub open spec fn gap(nonempty: bool) -> Seq<char> {
    if nonempty {
        "\n"@
    } else {
        Seq::empty()
    }
}

/// The source of a script: header comments (not in the canonical form),
/// imports, the function header, locals, arrays and the body.
pub open spec fn render_script(s: StructuredScript, canonical: bool) -> Seq<char> {
    (if canonical {
        Seq::empty()
    } else {
        comments_text(s.header_comments@)
    }) + imports_text(s.imports@) + gap(s.imports@.len() > 0) + "export function "@
        + s.function_name@ + "("@ + args_text(s.arguments@) + "): "@ + s.return_type@ + " {\n"@
        + locals_text(s.locals@) + gap(s.locals@.len() > 0) + arrays_text(s.arrays@) + gap(
        s.arrays@.len() > 0,
    ) + render_list(s.body@, 1, canonical) + "}\n"@
}

impl StructuredScript {
    /// The source, with header comments and comment statements.
    pub fn render(&self) -> (r: String)
        ensures
            r@ == render_script(*self, false),
    {
        self.render_with_options(false)
    }

    /// The source without any comments: what two scripts with the same
    /// code share.
    pub fn canonical_source(&self) -> (r: String)
        ensures
            r@ == render_script(*self, true),
    {
        self.render_with_options(true)
    }

    fn render_with_options(&self, canonical: bool) -> (r: String)
        ensures
            r@ == render_script(*self, canonical),
    {
        let mut out = String::new();
        if !canonical {
            let mut i: usize = 0;
            while i < self.header_comments.len()
                invariant
                    i <= self.header_comments@.len(),
                    out@ == comments_text(self.header_comments@.take(i as int)),
                decreases self.header_comments@.len() - i,
            {
                push_str(&mut out, "// ");
                push_str(&mut out, self.header_comments[i].as_str());
                push_str(&mut out, "\n");
                proof {
                    assert(self.header_comments@.take(i + 1).drop_last() =~= self.header_comments@.take(
                        i as int,
                    ));
                }
                i = i + 1;
            }
            proof {
                assert(self.header_comments@.take(self.header_comments@.len() as int)
                    =~= self.header_comments@);
            }
        }
        let ghost head = out@;
        let mut i: usize = 0;
        while i < self.imports.len()
            invariant
                i <= self.imports@.len(),
                out@ == head + imports_text(self.imports@.take(i as int)),
            decreases self.imports@.len() - i,
        {
            let imp = &self.imports[i];
            let mut piece = String::new();
            if imp.is_type_only {
                push_str(&mut piece, "import type");
            } else {
                push_str(&mut piece, "import");
            }
            push_str(&mut piece, " { ");
            push_joined_names(&mut piece, &imp.named_exports);
            push_str(&mut piece, " } from '");
            push_str(&mut piece, imp.module.as_str());
            push_str(&mut piece, "';\n");
            proof {
                assert(piece@ =~= import_text(*imp));
            }
            push_str(&mut out, piece.as_str());
            proof {
                assert(self.imports@.take(i + 1).drop_last() =~= self.imports@.take(i as int));
            }
            i = i + 1;
        }
        proof {
            assert(self.imports@.take(self.imports@.len() as int) =~= self.imports@);
        }
        if self.imports.len() > 0 {
            push_str(&mut out, "\n");
        }
        push_str(&mut out, "export function ");
        push_str(&mut out, self.function_name.as_str());
        push_str(&mut out, "(");
        let ghost before_args = out@;
        let mut i: usize = 0;
        while i < self.arguments.len()
            invariant
                i <= self.arguments@.len(),
                out@ == before_args + args_text(self.arguments@.take(i as int)),
            decreases self.arguments@.len() - i,
        {
            let mut piece = String::new();
            if i > 0 {
                push_str(&mut piece, ", ");
            }
            push_str(&mut piece, self.arguments[i].name.as_str());
            push_str(&mut piece, ": ");
            push_str(&mut piece, self.arguments[i].type_annotation.as_str());
            push_str(&mut out, piece.as_str());
            proof {
                let t = self.arguments@.take(i + 1);
                assert(t.drop_last() =~= self.arguments@.take(i as int));
                assert(t.last() == self.arguments@[i as int]);
                if i == 0 {
                    assert(t[0] == self.arguments@[0]);
                }
                assert(out@ =~= before_args + args_text(t));
            }
            i = i + 1;
        }
        proof {
            assert(self.arguments@.take(self.arguments@.len() as int) =~= self.arguments@);
        }
        push_str(&mut out, "): ");
        push_str(&mut out, self.return_type.as_str());
        push_str(&mut out, " {\n");
        let ghost before_locals = out@;
        let mut i: usize = 0;
        while i < self.locals.len()
            invariant
                i <= self.locals@.len(),
                out@ == before_locals + locals_text(self.locals@.take(i as int)),
            decreases self.locals@.len() - i,
        {
            push_str(&mut out, "    let ");
            push_str(&mut out, self.locals[i].name.as_str());
            push_str(&mut out, ": ");
            push_str(&mut out, self.locals[i].type_annotation.as_str());
            push_str(&mut out, ";\n");
            proof {
                assert(self.locals@.take(i + 1).drop_last() =~= self.locals@.take(i as int));
            }
            i = i + 1;
        }
        proof {
            assert(self.locals@.take(self.locals@.len() as int) =~= self.locals@);
        }
        if self.locals.len() > 0 {
            push_str(&mut out, "\n");
        }
        let ghost before_arrays = out@;
        let mut i: usize = 0;
        while i < self.arrays.len()
            invariant
                i <= self.arrays@.len(),
                out@ == before_arrays + arrays_text(self.arrays@.take(i as int)),
            decreases self.arrays@.len() - i,
        {
            push_str(&mut out, "    let array_");
            push_u64(&mut out, self.arrays[i] as u64);
            push_str(&mut out, ": number[] = [];\n");
            proof {
                assert(self.arrays@.take(i + 1).drop_last() =~= self.arrays@.take(i as int));
            }
            i = i + 1;
        }
        proof {
            assert(self.arrays@.take(self.arrays@.len() as int) =~= self.arrays@);
        }
        if self.arrays.len() > 0 {
            push_str(&mut out, "\n");
        }
        let mut body = String::new();
        let mut i: usize = 0;
        while i < self.body.len()
            invariant
                i <= self.body@.len(),
                body@ == render_list(self.body@.take(i as int), 1, canonical),
            decreases self.body@.len() - i,
        {
            write_stmt(&mut body, &self.body[i], 1, canonical);
            proof {
                assert(self.body@.take(i + 1).subrange(0, i as int) =~= self.body@.take(i as int));
                assert(self.body@.take(i + 1)[i as int] == self.body@[i as int]);
            }
            i = i + 1;
        }
        proof {
            assert(self.body@.take(self.body@.len() as int) =~= self.body@);
        }
        push_str(&mut out, body.as_str());
        push_str(&mut out, "}\n");
        proof {
            assert(out@ =~= render_script(*self, canonical));
        }
        out
    }
}

} // verus!
