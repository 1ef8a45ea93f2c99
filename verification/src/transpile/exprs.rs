//! Building, inspecting and printing recovered expressions.
use crate::text::{chars_eq, chars_of, push_i64, push_str, starts_with, str_eq, string_from, string_of};
use crate::transpile::ast::{
    ArrayAccess, BigIntLiteral, BinaryOp, CallExpr, Expression, Identifier, NumberLiteral,
    PropertyAccess, StringLiteral, UnaryOp,
};
use vstd::prelude::*;

verus! {

broadcast use vstd::string::group_string_axioms;

/// `a` followed by `b`.
pub fn cat(a: &str, b: &str) -> (r: String)
    ensures
        r@ == a@ + b@,
{
    let mut s = string_from(a);
    push_str(&mut s, b);
    s
}

/// `prefix` followed by the decimal `v`.
pub fn cat_num(prefix: &str, v: i64) -> (r: String)
    ensures
        r@ == prefix@ + crate::text::dec_int(v as int),
{
    let mut s = string_from(prefix);
    push_i64(&mut s, v);
    s
}

/// The identifier `name`.
pub fn ident(name: String) -> (r: Expression)
    ensures
        r == Expression::Identifier(Identifier { name }),
{
    Expression::Identifier(Identifier { name })
}

/// A call of the function named `name`.
pub fn call_named(name: String, arguments: Vec<Expression>) -> (r: Expression)
    ensures
        r matches Expression::Call(c) && c.arguments == arguments && *c.callee
            == Expression::Identifier(Identifier { name }),
{
    Expression::Call(CallExpr { callee: Box::new(ident(name)), arguments })
}

/// The number literal `value`.
pub fn num(value: i32) -> (r: Expression)
    ensures
        r == Expression::NumberLiteral(NumberLiteral { value }),
{
    Expression::NumberLiteral(NumberLiteral { value })
}

/// The string literal `value`.
pub fn str_lit(value: String) -> (r: Expression)
    ensures
        r == Expression::StringLiteral(StringLiteral { value }),
{
    Expression::StringLiteral(StringLiteral { value })
}

/// Whether `e` is `name(..)` with the given argument count.
pub open spec fn is_call_of(e: Expression, name: Seq<char>, argc: int) -> bool {
    e matches Expression::Call(c) && c.arguments@.len() == argc && (*c.callee
        matches Expression::Identifier(i) && i.name@ == name)
}

/// `pop()`: a value taken off the VM stack at run time.
pub fn pop_call_expr() -> (r: Expression)
    ensures
        is_call_of(r, "pop"@, 0),
{
    call_named(string_from("pop"), Vec::new())
}

/// `push(value)`.
pub fn push_call_expr(value: Expression) -> (r: Expression)
    ensures
        is_call_of(r, "push"@, 1),
{
    let mut args: Vec<Expression> = Vec::new();
    args.push(value);
    call_named(string_from("push"), args)
}

/// Whether `value` reads the VM stack: `pop()` or a pop operation.
pub fn is_pop_call_expr(value: &Expression) -> (r: bool)
    ensures
        r == (is_call_of(*value, "pop"@, 0) || value is PopOperation),
{
    match value {
        Expression::Call(c) => {
            if c.arguments.len() == 0 {
                match &*c.callee {
                    Expression::Identifier(i) => str_eq(i.name.as_str(), "pop"),
                    _ => false,
                }
            } else {
                false
            }
        },
        Expression::PopOperation(_) => true,
        _ => false,
    }
}

/// Whether `value` is one result of a multi-value call: a property or an
/// index of a call.
pub fn is_multi_result_access_value(value: &Expression) -> (r: bool)
    ensures
        r == (match *value {
            Expression::PropertyAccess(a) => *a.object is Call,
            Expression::ArrayAccess(a) => *a.array is Call,
            _ => false,
        }),
{
    match value {
        Expression::PropertyAccess(a) => match &*a.object {
            Expression::Call(_) => true,
            _ => false,
        },
        Expression::ArrayAccess(a) => match &*a.array {
            Expression::Call(_) => true,
            _ => false,
        },
        _ => false,
    }
}

/// The integer a literal stands for: a number, or a `KEY_<n>` property
/// whose `<n>` is an `i32` numeral.
pub open spec fn literal_value(e: Expression) -> Option<i32> {
    match e {
        Expression::NumberLiteral(n) => Some(n.value),
        Expression::PropertyAccess(p) => if "KEY_"@.is_prefix_of(p.property@) {
            match crate::text::parse_in_range(p.property@.skip(4), true, i32::MIN as int, i32::MAX as int) {
                Some(v) => Some(v as i32),
                None => None,
            }
        } else {
            None
        },
        _ => None,
    }
}

/// The integer a literal stands for: a number, or a `KEY_<n>` property.
pub fn literal_i32(expr: &Expression) -> (r: Option<i32>)
    ensures
        r == literal_value(*expr),
        expr matches Expression::NumberLiteral(n) ==> r == Some(n.value),
        !(expr is NumberLiteral || expr is PropertyAccess) ==> r is None,
{
    proof {
        reveal_strlit("KEY_");
    }
    match expr {
        Expression::NumberLiteral(n) => Some(n.value),
        Expression::PropertyAccess(p) => {
            let cs = chars_of(p.property.as_str());
            match crate::text::strip_prefix(&cs, "KEY_") {
                Some(rest) => crate::text::parse_i32(&rest),
                None => None,
            }
        },
        _ => None,
    }
}

/// `s` without its underscores.
pub open spec fn drop_underscores(s: Seq<char>) -> Seq<char>
    decreases s.len(),
{
    if s.len() == 0 {
        s
    } else if s.last() == '_' {
        drop_underscores(s.drop_last())
    } else {
        drop_underscores(s.drop_last()).push(s.last())
    }
}

/// `cmd` with underscores removed, as an identifier.
pub fn sanitize_command(cmd: &str) -> (r: String)
    ensures
        r@ == crate::transpile::names::sanitize_ident_spec(drop_underscores(cmd@)),
{
    let cs = chars_of(cmd);
    let mut out: Vec<char> = Vec::new();
    let mut i: usize = 0;
    while i < cs.len()
        invariant
            i <= cs@.len(),
            out@ == drop_underscores(cs@.take(i as int)),
        decreases cs@.len() - i,
    {
        proof {
            assert(cs@.take(i + 1).drop_last() =~= cs@.take(i as int));
            assert(cs@.take(i + 1).last() == cs@[i as int]);
        }
        if cs[i] != '_' {
            out.push(cs[i]);
        }
        i = i + 1;
    }
    proof {
        assert(cs@.take(i as int) =~= cs@);
    }
    let s = string_of(&out);
    crate::transpile::names::sanitize_ts_ident(s.as_str())
}

/// The ASCII upper case of `c`.
pub open spec fn upper(c: char) -> char {
    if 'a' <= c <= 'z' {
        ((c as u32) - 32) as char
    } else {
        c
    }
}

pub(crate) fn to_upper(c: char) -> (r: char)
    ensures
        r == upper(c),
{
    if 'a' <= c && c <= 'z' {
        let u: u8 = ((c as u32) - 32) as u8;
        u as char
    } else {
        c
    }
}

/// `s` from here on in camel case: underscores dropped, and the next
/// character upper-cased when `cap` holds or it follows an underscore.
pub open spec fn camel_from(s: Seq<char>, cap: bool) -> Seq<char>
    decreases s.len(),
{
    if s.len() == 0 {
        seq![]
    } else if s[0] == '_' {
        camel_from(s.drop_first(), true)
    } else if cap {
        seq![upper(s[0])] + camel_from(s.drop_first(), false)
    } else {
        seq![s[0]] + camel_from(s.drop_first(), false)
    }
}

/// `s` in camel case: underscores dropped, the first letter and each letter
/// after an underscore in upper case.
pub fn sanitize_camel(s: &[char]) -> (r: String)
    ensures
        r@ == camel_from(s@, true),
{
    let mut out: Vec<char> = Vec::new();
    let mut capitalize = true;
    let mut i: usize = 0;
    proof {
        assert(s@.skip(0) =~= s@);
        assert(out@ + camel_from(s@, true) =~= camel_from(s@, true));
    }
    while i < s.len()
        invariant
            i <= s@.len(),
            camel_from(s@, true) == out@ + camel_from(s@.skip(i as int), capitalize),
        decreases s@.len() - i,
    {
        let ghost rest = s@.skip(i as int);
        let ghost before = out@;
        let ghost tail = camel_from(s@.skip(i + 1), false);
        proof {
            assert(rest.drop_first() =~= s@.skip(i + 1));
            assert(rest[0] == s@[i as int]);
        }
        let c = s[i];
        if c == '_' {
            capitalize = true;
        } else if capitalize {
            let u = to_upper(c);
            out.push(u);
            capitalize = false;
            proof {
                assert(before + (seq![u] + tail) =~= out@ + tail);
            }
        } else {
            out.push(c);
            proof {
                assert(before + (seq![c] + tail) =~= out@ + tail);
            }
        }
        i = i + 1;
    }
    proof {
        assert(s@.skip(i as int).len() == 0);
        assert(out@ + Seq::<char>::empty() =~= out@);
    }
    string_of(&out)
}

/// The source form of an expression, as recovery compares them: literals
/// as written (a long with an `n`, a string in double quotes), accesses and
/// calls as written, operations in parentheses.
pub open spec fn expr_text(e: Expression) -> Seq<char>
    decreases e, 1nat, 0nat,
{
    match e {
        Expression::NumberLiteral(n) => crate::text::dec_int(n.value as int),
        Expression::BigIntLiteral(n) => crate::text::dec_int(n.value as int) + "n"@,
        Expression::Identifier(i) => i.name@,
        Expression::StringLiteral(v) => "\""@ + v.value@ + "\""@,
        Expression::BooleanLiteral(b) => if b.value {
            "true"@
        } else {
            "false"@
        },
        Expression::ArrayAccess(a) => expr_text(*a.array) + "["@ + expr_text(*a.index) + "]"@,
        Expression::PropertyAccess(p) => expr_text(*p.object) + "."@ + p.property@,
        Expression::Call(c) => expr_text(*c.callee) + "("@ + args_text(e, c.arguments@.len()) + ")"@,
        Expression::CallbackLiteral(cb) => "callback(\""@ + cb.script@ + "\", ["@ + crate::text::join_sep(
            cb.watchers@.map_values(|w: String| w@),
            ", "@,
        ) + "])"@,
        Expression::BinaryOperation(b) => "("@ + expr_text(*b.left) + " "@ + crate::transpile::ast::binary_op_text(
            b.op,
        ) + " "@ + expr_text(*b.right) + ")"@,
        Expression::UnaryOperation(u) => "("@ + (match u.op {
            UnaryOp::Neg => "-"@,
            UnaryOp::Not => "!"@,
        }) + expr_text(*u.operand) + ")"@,
        Expression::PushOperation(p) => "push("@ + expr_text(*p.value) + ")"@,
        Expression::PopOperation(_) => "pop()"@,
        Expression::GotoExpr(g) => "goto("@ + crate::text::dec_int((g.target as i64) as int) + ")"@,
    }
}

/// The first `k` arguments of the call `e` in source form, separated by
/// `, `.
pub open spec fn args_text(e: Expression, k: nat) -> Seq<char>
    decreases e, 0nat, k,
{
    match e {
        Expression::Call(c) => if k == 0 || k > c.arguments@.len() {
            Seq::empty()
        } else {
            proof {
                assert(decreases_to!(e => e->Call_0));
                assert(decreases_to!(e->Call_0 => e->Call_0.arguments));
                assert(decreases_to!(c.arguments => c.arguments@));
                assert(decreases_to!(c.arguments@ => c.arguments@[k - 1]));
            }
            if k == 1 {
                expr_text(c.arguments@[0])
            } else {
                args_text(e, (k - 1) as nat) + ", "@ + expr_text(c.arguments@[k - 1])
            }
        },
        _ => Seq::empty(),
    }
}

/// The source form of an expression, as recovery compares them.
pub fn expr_str(expr: &Expression) -> (r: String)
    ensures
        r@ == expr_text(*expr),
    decreases expr,
{
    match expr {
        Expression::NumberLiteral(n) => crate::text::fmt_i64(n.value as i64),
        Expression::BigIntLiteral(n) => {
            let mut s = crate::text::fmt_i64(n.value);
            push_str(&mut s, "n");
            s
        },
        Expression::Identifier(i) => i.name.clone(),
        Expression::StringLiteral(v) => {
            let mut s = string_from("\"");
            push_str(&mut s, v.value.as_str());
            push_str(&mut s, "\"");
            s
        },
        Expression::BooleanLiteral(b) => if b.value {
            string_from("true")
        } else {
            string_from("false")
        },
        Expression::ArrayAccess(a) => {
            let mut s = expr_str(&a.array);
            push_str(&mut s, "[");
            let i = expr_str(&a.index);
            push_str(&mut s, i.as_str());
            push_str(&mut s, "]");
            s
        },
        Expression::PropertyAccess(p) => {
            let mut s = expr_str(&p.object);
            push_str(&mut s, ".");
            push_str(&mut s, p.property.as_str());
            s
        },
        Expression::Call(c) => {
            let mut s = expr_str(&c.callee);
            push_str(&mut s, "(");
            let ghost head = s@;
            let mut i: usize = 0;
            while i < c.arguments.len()
                invariant
                    *expr == Expression::Call(*c),
                    i <= c.arguments@.len(),
                    s@ == head + args_text(*expr, i as nat),
                decreases c.arguments.len() - i,
            {
                if i > 0 {
                    push_str(&mut s, ", ");
                }
                proof {
                    assert(decreases_to!(*expr => expr->Call_0));
                    assert(decreases_to!(expr->Call_0 => expr->Call_0.arguments));
                    assert(decreases_to!(c.arguments => c.arguments@));
                    assert(decreases_to!(c.arguments@ => c.arguments@[i as int]));
                    assert(decreases_to!(expr => c.arguments@[i as int]));
                }
                let a = expr_str(&c.arguments[i]);
                push_str(&mut s, a.as_str());
                proof {
                    if i == 0 {
                        assert(s@ =~= head + args_text(*expr, 1));
                    } else {
                        assert(s@ =~= head + args_text(*expr, (i + 1) as nat));
                    }
                }
                i = i + 1;
            }
            push_str(&mut s, ")");
            s
        },
        Expression::CallbackLiteral(cb) => {
            let mut s = string_from("callback(\"");
            push_str(&mut s, cb.script.as_str());
            push_str(&mut s, "\", [");
            let ghost head = s@;
            let ghost ws = cb.watchers@.map_values(|w: String| w@);
            let mut i: usize = 0;
            while i < cb.watchers.len()
                invariant
                    i <= cb.watchers@.len(),
                    ws == cb.watchers@.map_values(|w: String| w@),
                    s@ == head + crate::text::join_sep(ws.take(i as int), ", "@),
                decreases cb.watchers.len() - i,
            {
                proof {
                    assert(ws.take(i + 1).drop_last() =~= ws.take(i as int));
                    assert(ws.take(i + 1).last() == cb.watchers@[i as int]@);
                }
                if i > 0 {
                    push_str(&mut s, ", ");
                }
                push_str(&mut s, cb.watchers[i].as_str());
                proof {
                    if i == 0 {
                        assert(ws.take(1) =~= seq![ws[0]]);
                        assert(s@ =~= head + crate::text::join_sep(ws.take(1), ", "@));
                    } else {
                        assert(s@ =~= head + crate::text::join_sep(ws.take(i + 1), ", "@));
                    }
                }
                i = i + 1;
            }
            proof {
                assert(ws.take(i as int) =~= ws);
            }
            push_str(&mut s, "])");
            s
        },
        Expression::BinaryOperation(b) => {
            let mut s = string_from("(");
            let l = expr_str(&b.left);
            push_str(&mut s, l.as_str());
            push_str(&mut s, " ");
            push_str(&mut s, b.op.as_str());
            push_str(&mut s, " ");
            let r = expr_str(&b.right);
            push_str(&mut s, r.as_str());
            push_str(&mut s, ")");
            s
        },
        Expression::UnaryOperation(u) => {
            let mut s = string_from("(");
            push_str(&mut s, u.op.as_str());
            let o = expr_str(&u.operand);
            push_str(&mut s, o.as_str());
            push_str(&mut s, ")");
            s
        },
        Expression::PushOperation(p) => {
            let mut s = string_from("push(");
            let v = expr_str(&p.value);
            push_str(&mut s, v.as_str());
            push_str(&mut s, ")");
            s
        },
        Expression::PopOperation(_) => string_from("pop()"),
        Expression::GotoExpr(g) => {
            let mut s = string_from("goto(");
            push_i64(&mut s, g.target as i64);
            push_str(&mut s, ")");
            s
        },
    }
}

} // verus!
