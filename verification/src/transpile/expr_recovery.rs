//! Expression recovery: a symbolic run of the stack machine that folds
//! pushes into expressions and turns stores, calls, branches and returns
//! into statements.
use crate::text::{chars_eq, chars_of, push_str, push_u64, starts_with, str_eq, string_from, string_of};
use crate::transpile::ast::{
    ArrayAccess, BigIntLiteral, BinaryOp, BinaryOperation, CallExpr, CallbackLiteral, Expression,
    Identifier, InstructionNode, NumberLiteral, OperandNode, PropertyAccess, StringLiteral,
    SwitchCase, UnaryOp, UnaryOperation, VarBitRefNode, VarRefNode,
};
use crate::transpile::catalog::{
    call_target_signature, resolve_call_target_signature, ScriptCatalog, ScriptReturnCounts, ScriptSignature,
    SignatureMap,
};
use crate::transpile::effects::{
    build_effect, fixed_effect, fixed_stack_effect, fixed_table, opcode_stack_effect_for_build, EffectTables,
    StackEffect,
};
use crate::transpile::exprs::{
    call_named, cat, cat_num, expr_str, expr_text, ident, is_call_of, literal_value, is_multi_result_access_value, is_pop_call_expr,
    literal_i32, num, pop_call_expr, push_call_expr, sanitize_camel, sanitize_command, str_lit,
};
use crate::transpile::scope::{var_key_of, NameTable};
use crate::vars::VarDomain;
use vstd::prelude::*;

verus! {

broadcast use vstd::string::group_string_axioms;

/// The most parts a `join_string` may join.
pub const MAX_JOIN_STRING_PARTS: usize = 1024;

/// The most watchers a script hook may carry.
pub const MAX_CALLBACK_WATCHERS: usize = 4096;

/// A statement recovered from one instruction.
#[derive(Debug, Clone)]
pub enum RecoveredStmt {
    Expression(Expression),
    Assignment { target: String, value: Expression, var_type: String },
    Goto(usize),
    GotoStack { target: usize, values: Vec<Expression> },
    Branch { condition: Expression, target: usize, negated: bool },
    BranchBinary { op: BinaryOp, left: Expression, right: Expression, target: usize },
    Switch { discriminant: Expression, cases: Vec<(i32, usize)> },
    Return(Option<Expression>),
    Comment(String),
}

/// The class of a command by its prefix.
#[derive(Debug, Clone, Copy, PartialEq, Eq, Structural)]
pub enum OpcodeCategory {
    Push,
    Pop,
    Branch,
    CC,
    IF,
    Other,
}

/// The class of a command by its prefix: `push_`, `pop_`, `branch_` or
/// `long_branch_`, `cc_`, `if_`, or another.
pub open spec fn category_of(cmd: Seq<char>) -> OpcodeCategory {
    if "push_"@.is_prefix_of(cmd) {
        OpcodeCategory::Push
    } else if "pop_"@.is_prefix_of(cmd) {
        OpcodeCategory::Pop
    } else if "branch_"@.is_prefix_of(cmd) || "long_branch_"@.is_prefix_of(cmd) {
        OpcodeCategory::Branch
    } else if "cc_"@.is_prefix_of(cmd) {
        OpcodeCategory::CC
    } else if "if_"@.is_prefix_of(cmd) {
        OpcodeCategory::IF
    } else {
        OpcodeCategory::Other
    }
}

/// The class of a command by its prefix.
pub fn categorize(cmd: &[char]) -> (r: OpcodeCategory)
    ensures
        r == category_of(cmd@),
{
    if starts_with(cmd, "push_") {
        OpcodeCategory::Push
    } else if starts_with(cmd, "pop_") {
        OpcodeCategory::Pop
    } else if starts_with(cmd, "branch_") || starts_with(cmd, "long_branch_") {
        OpcodeCategory::Branch
    } else if starts_with(cmd, "cc_") {
        OpcodeCategory::CC
    } else if starts_with(cmd, "if_") {
        OpcodeCategory::IF
    } else {
        OpcodeCategory::Other
    }
}

fn contains_usize(v: &Vec<usize>, x: usize) -> (r: bool)
    ensures
        r == v@.contains(x),
{
    let mut i: usize = 0;
    while i < v.len()
        invariant
            i <= v@.len(),
            forall|j: int| 0 <= j < i ==> v@[j] != x,
        decreases v@.len() - i,
    {
        if v[i] == x {
            return true;
        }
        i = i + 1;
    }
    false
}

/// Every jump target of the instructions: branch targets and switch case
/// targets.
pub fn collect_branch_targets(instructions: &[InstructionNode]) -> (r: Vec<usize>)
    ensures
        forall|i: int|
            0 <= i < instructions@.len() ==> (#[trigger] instructions@[i].operand matches OperandNode::Branch(t)
                ==> r@.contains(t)),
{
    let mut out: Vec<usize> = Vec::new();
    let mut i: usize = 0;
    while i < instructions.len()
        invariant
            i <= instructions@.len(),
            forall|k: int|
                0 <= k < i ==> (#[trigger] instructions@[k].operand matches OperandNode::Branch(t)
                    ==> out@.contains(t)),
        decreases instructions@.len() - i,
    {
        let ghost before = out@;
        match &instructions[i].operand {
            OperandNode::Branch(t) => {
                out.push(*t);
                proof {
                    assert(out@[out@.len() - 1] == *t);
                    assert forall|k: int|
                        0 <= k < i && (instructions@[k].operand matches OperandNode::Branch(u))
                            implies out@.contains(instructions@[k].operand->Branch_0) by {
                        let u = instructions@[k].operand->Branch_0;
                        assert(before.contains(u));
                        let w = choose|w: int| 0 <= w < before.len() && before[w] == u;
                        assert(out@[w] == u);
                    }
                }
            },
            OperandNode::Switch(cases) => {
                let mut j: usize = 0;
                while j < cases.len()
                    invariant
                        j <= cases@.len(),
                        forall|w: int| 0 <= w < before.len() ==> #[trigger] out@.contains(before[w]),
                    decreases cases@.len() - j,
                {
                    let ghost b2 = out@;
                    out.push(cases[j].target);
                    proof {
                        assert forall|w: int| 0 <= w < before.len() implies #[trigger] out@.contains(
                            before[w],
                        ) by {
                            assert(b2.contains(before[w]));
                            let z = choose|z: int| 0 <= z < b2.len() && b2[z] == before[w];
                            assert(out@[z] == before[w]);
                        }
                    }
                    j = j + 1;
                }
                proof {
                    assert forall|k: int|
                        0 <= k < i && (instructions@[k].operand matches OperandNode::Branch(u))
                            implies out@.contains(instructions@[k].operand->Branch_0) by {
                        let u = instructions@[k].operand->Branch_0;
                        assert(before.contains(u));
                        let w = choose|w: int| 0 <= w < before.len() && before[w] == u;
                        assert(out@.contains(before[w]));
                    }
                }
            },
            _ => {},
        }
        i = i + 1;
    }
    out
}

/// The (pops, pushes) a command's category implies when no table knows it:
/// a push pushes one value, a pop, branch or component command pops one,
/// anything else neither.
pub open spec fn category_effect(c: OpcodeCategory) -> StackEffect {
    match c {
        OpcodeCategory::Push => StackEffect { pops: 0, pushes: 1 },
        OpcodeCategory::Other => StackEffect { pops: 0, pushes: 0 },
        _ => StackEffect { pops: 1, pushes: 0 },
    }
}

/// The (pops, pushes) of a call of a script with signature `sig`: its
/// arguments, and its returned values (one for a value script that counts
/// none).
pub open spec fn call_effect(sig: ScriptSignature) -> StackEffect {
    let rets = sig.return_count_int + sig.return_count_obj + sig.return_count_long;
    StackEffect {
        pops: (sig.arg_count_int + sig.arg_count_obj + sig.arg_count_long) as usize,
        pushes: if rets == 0 && sig.return_type@ != "void"@ {
            1
        } else {
            rets as usize
        },
    }
}

/// The (pops, pushes) of `cmd` with operand `operand` in build `build`: the
/// commands whose effect depends on the operand or the build, then the
/// fixed table, then the per-stack table, then the command's category.
pub open spec fn stack_effect_of(
    cmd: Seq<char>,
    operand: OperandNode,
    build: u32,
    catalog: ScriptCatalog,
    sigs: SignatureMap,
    tables: EffectTables,
) -> StackEffect {
    if cmd == "join_string"@ {
        match operand {
            OperandNode::Count(n) => StackEffect { pops: n, pushes: 1 },
            _ => StackEffect { pops: 0, pushes: 1 },
        }
    } else if cmd == "gosub_with_params"@ {
        match operand {
            OperandNode::Script(id) => match call_target_signature(catalog, sigs, id) {
                Some((_m, sig)) => call_effect(sig),
                None => StackEffect { pops: 0, pushes: 0 },
            },
            _ => StackEffect { pops: 0, pushes: 0 },
        }
    } else if cmd == "activeclanchannel_find_affined"@ || cmd == "activeclansettings_find_affined"@ {
        StackEffect {
            pops: if build >= 938 {
                1
            } else {
                0
            },
            pushes: 1,
        }
    } else if cmd == "login_last_transfer_reply"@ {
        StackEffect { pops: 0, pushes: 3 }
    } else if cmd == "autosetup_dosetup"@ || cmd == "autosetup_dosetupstatus"@ || cmd == "viewport_getzoom"@
        || cmd == "viewport_getfov"@ {
        StackEffect { pops: 0, pushes: 2 }
    } else if cmd == "fullscreen_getmode"@ {
        StackEffect { pops: 1, pushes: 2 }
    } else if build >= 919 && cmd == "db_find"@ {
        StackEffect { pops: 3, pushes: 0 }
    } else if build >= 919 && (cmd == "db_find_with_count"@ || cmd == "db_find_refine"@) {
        StackEffect { pops: 3, pushes: 1 }
    } else if build >= 919 && (cmd == "cam2_setpositionentity_npc"@ || cmd == "cam2_setpositionentity_player"@) {
        StackEffect { pops: 8, pushes: 0 }
    } else if build >= 919 && cmd == "tostring"@ {
        StackEffect { pops: 2, pushes: 1 }
    } else {
        match fixed_effect(fixed_table(), cmd) {
            Some(e) => e,
            None => match build_effect(cmd, build, tables.stack_effects_view(), tables.signatures_view()) {
                Some(e) => StackEffect {
                    pops: (e.int_pops + e.obj_pops + e.long_pops) as usize,
                    pushes: (e.int_pushes + e.obj_pushes + e.long_pushes) as usize,
                },
                None => category_effect(category_of(cmd)),
            },
        }
    }
}

/// The (pops, pushes) of `cmd` with operand `operand` in build `build`.
pub fn stack_effect(
    cmd: &[char],
    cmd_str: &str,
    operand: &OperandNode,
    build: u32,
    script_catalog: &ScriptCatalog,
    script_signatures: &SignatureMap,
    tables: &EffectTables,
) -> (r: StackEffect)
    requires
        cmd@ == cmd_str@,
    ensures
        r == stack_effect_of(cmd@, *operand, build, *script_catalog, *script_signatures, *tables),
        r.pops <= 65536 * 3 || operand is Count,
        r.pushes <= 65536 * 3,
{
    if chars_eq(cmd, "join_string") {
        return match operand {
            OperandNode::Count(n) => StackEffect { pops: *n, pushes: 1 },
            _ => StackEffect { pops: 0, pushes: 1 },
        };
    }
    if chars_eq(cmd, "gosub_with_params") {
        if let OperandNode::Script(id) = operand {
            if let Some((_m, sig)) = resolve_call_target_signature(script_catalog, script_signatures, *id) {
                let ret_count = sig.total_returns();
                let is_value = !str_eq(sig.return_type.as_str(), "void");
                let pushes = if ret_count == 0 && is_value {
                    1
                } else {
                    ret_count
                };
                return StackEffect { pops: sig.total_args(), pushes };
            }
        }
        return StackEffect { pops: 0, pushes: 0 };
    }
    if chars_eq(cmd, "activeclanchannel_find_affined") || chars_eq(cmd, "activeclansettings_find_affined") {
        return StackEffect {
            pops: if build >= 938 {
                1
            } else {
                0
            },
            pushes: 1,
        };
    }
    if chars_eq(cmd, "login_last_transfer_reply") {
        return StackEffect { pops: 0, pushes: 3 };
    }
    if chars_eq(cmd, "autosetup_dosetup") || chars_eq(cmd, "autosetup_dosetupstatus") {
        return StackEffect { pops: 0, pushes: 2 };
    }
    if chars_eq(cmd, "viewport_getzoom") || chars_eq(cmd, "viewport_getfov") {
        return StackEffect { pops: 0, pushes: 2 };
    }
    if chars_eq(cmd, "fullscreen_getmode") {
        return StackEffect { pops: 1, pushes: 2 };
    }
    if build >= 919 {
        if chars_eq(cmd, "db_find") {
            return StackEffect { pops: 3, pushes: 0 };
        }
        if chars_eq(cmd, "db_find_with_count") || chars_eq(cmd, "db_find_refine") {
            return StackEffect { pops: 3, pushes: 1 };
        }
        if chars_eq(cmd, "cam2_setpositionentity_npc") || chars_eq(cmd, "cam2_setpositionentity_player") {
            return StackEffect { pops: 8, pushes: 0 };
        }
        if chars_eq(cmd, "tostring") {
            return StackEffect { pops: 2, pushes: 1 };
        }
    }
    if let Some(e) = fixed_stack_effect(cmd_str) {
        return e;
    }
    if let Some(e) = opcode_stack_effect_for_build(cmd_str, build, tables) {
        return StackEffect { pops: e.total_pops(), pushes: e.total_pushes() };
    }
    match categorize(cmd) {
        OpcodeCategory::Push => StackEffect { pops: 0, pushes: 1 },
        OpcodeCategory::Other => StackEffect { pops: 0, pushes: 0 },
        _ => StackEffect { pops: 1, pushes: 0 },
    }
}

/// The prefix and type of a local command's variable: `long` commands use
/// `local_long`, `string` or `obj` ones `local_obj`, the rest `local_int`.
pub fn local_type(cmd: &[char]) -> (r: (&'static str, &'static str))
    ensures
        (exists|i: int| 0 <= i <= cmd@.len() && "long"@.is_prefix_of(#[trigger] cmd@.skip(i))) ==> (r.0@
            == "local_long"@ && r.1@ == "bigint"@),
        !(exists|i: int| 0 <= i <= cmd@.len() && "long"@.is_prefix_of(#[trigger] cmd@.skip(i))) && (exists|i: int|
            0 <= i <= cmd@.len() && ("string"@.is_prefix_of(#[trigger] cmd@.skip(i)) || "obj"@.is_prefix_of(
                cmd@.skip(i),
            ))) ==> (r.0@ == "local_obj"@ && r.1@ == "string"@),
        !(exists|i: int|
            0 <= i <= cmd@.len() && ("long"@.is_prefix_of(#[trigger] cmd@.skip(i)) || "string"@.is_prefix_of(
                cmd@.skip(i),
            ) || "obj"@.is_prefix_of(cmd@.skip(i)))) ==> (r.0@ == "local_int"@ && r.1@ == "number"@),
{
    let long_pat = chars_of("long");
    let string_pat = chars_of("string");
    let obj_pat = chars_of("obj");
    if contains_sub(cmd, &long_pat) {
        ("local_long", "bigint")
    } else if contains_sub(cmd, &string_pat) || contains_sub(cmd, &obj_pat) {
        ("local_obj", "string")
    } else {
        ("local_int", "number")
    }
}

/// Whether `p` occurs in `s`.
pub fn contains_sub(s: &[char], p: &[char]) -> (r: bool)
    ensures
        r == exists|i: int| 0 <= i <= s@.len() && p@.is_prefix_of(#[trigger] s@.skip(i)),
{
    let mut i: usize = 0;
    while i < s.len()
        invariant
            i <= s@.len(),
            forall|k: int| 0 <= k < i ==> !p@.is_prefix_of(#[trigger] s@.skip(k)),
        decreases s@.len() - i,
    {
        if crate::text::matches_at(s, i, p) {
            return true;
        }
        i = i + 1;
    }
    if crate::text::matches_at(s, s.len(), p) {
        return true;
    }
    false
}

/// The identifier of a variable: its name, or `var_<domain>:<id>`, with
/// `_transmog` when it addresses the transmog copy.
pub open spec fn varref_name(vr: VarRefNode) -> Seq<char> {
    let base = match vr.name {
        Some(n) => n@,
        None => "var_"@ + crate::vars::domain_label(vr.domain) + ":"@ + crate::text::dec_nat(vr.id.0 as nat),
    };
    if vr.is_transmog {
        base + "_transmog"@
    } else {
        base
    }
}

/// The identifier of a variable bit: its name, or `varbit_<id>`, with
/// `_transmog` when it addresses the transmog copy.
pub open spec fn varbit_name(vbr: VarBitRefNode) -> Seq<char> {
    let base = match vbr.name {
        Some(n) => n@,
        None => "varbit_"@ + crate::text::dec_nat(vbr.id.0 as nat),
    };
    if vbr.is_transmog {
        base + "_transmog"@
    } else {
        base
    }
}

/// The identifier of a variable: its name, or `var_<domain>:<id>`, with
/// `_transmog` when it addresses the transmog copy.
pub fn varref_identifier(vr: &VarRefNode) -> (r: String)
    ensures
        r@ == varref_name(*vr),
{
    let mut base = match &vr.name {
        Some(n) => n.clone(),
        None => {
            let mut s = string_from("var_");
            push_str(&mut s, vr.domain.as_label());
            push_str(&mut s, ":");
            push_u64(&mut s, vr.id.0 as u64);
            s
        },
    };
    if vr.is_transmog {
        push_str(&mut base, "_transmog");
    }
    base
}

/// The identifier of a variable bit: its name, or `varbit_<id>`, with
/// `_transmog` when it addresses the transmog copy.
pub fn varbit_identifier(vbr: &VarBitRefNode) -> (r: String)
    ensures
        r@ == varbit_name(*vbr),
{
    let mut base = match &vbr.name {
        Some(n) => n.clone(),
        None => {
            let mut s = string_from("varbit_");
            push_u64(&mut s, vbr.id.0 as u64);
            s
        },
    };
    if vbr.is_transmog {
        push_str(&mut base, "_transmog");
    }
    base
}

/// The name of a stacked store target, for the pops that can form a
/// multi-value assignment.
pub fn stacked_pop_target(instr: &InstructionNode) -> (r: Option<String>)
    ensures
        r is Some ==> is_stacked_pop_cmd(instr.command@),
        match instr.operand {
            OperandNode::Local(idx) => {
                &&& instr.command@ == "pop_int_local"@ ==> (r matches Some(n) && n@ == "local_int_"@
                    + crate::text::dec_nat(idx as nat))
                &&& instr.command@ == "pop_string_local"@ ==> (r matches Some(n) && n@ == "local_obj_"@
                    + crate::text::dec_nat(idx as nat))
                &&& instr.command@ == "pop_long_local"@ ==> (r matches Some(n) && n@ == "local_long_"@
                    + crate::text::dec_nat(idx as nat))
                &&& !(instr.command@ == "pop_int_local"@ || instr.command@ == "pop_string_local"@
                    || instr.command@ == "pop_long_local"@) ==> r is None
            },
            OperandNode::VarBitRef(v) => if instr.command@ == "pop_varbit"@ {
                r matches Some(n) && n@ == varbit_name(v)
            } else {
                r is None
            },
            _ => r is None,
        },
{
    let cmd = chars_of(instr.command.as_str());
    proof {
        reveal_strlit("pop_int_local");
        reveal_strlit("pop_string_local");
        reveal_strlit("pop_long_local");
        assert("pop_string_local"@.len() != "pop_int_local"@.len());
        assert("pop_long_local"@ != "pop_int_local"@) by {
            assert("pop_long_local"@[4] != "pop_int_local"@[4]);
        }
        assert("pop_long_local"@.len() != "pop_string_local"@.len());
    }
    match &instr.operand {
        OperandNode::Local(idx) => {
            if chars_eq(&cmd, "pop_int_local") {
                Some(indexed_name("local_int_", *idx))
            } else if chars_eq(&cmd, "pop_string_local") {
                Some(indexed_name("local_obj_", *idx))
            } else if chars_eq(&cmd, "pop_long_local") {
                Some(indexed_name("local_long_", *idx))
            } else {
                None
            }
        },
        OperandNode::VarBitRef(v) => {
            if chars_eq(&cmd, "pop_varbit") {
                Some(varbit_identifier(v))
            } else {
                None
            }
        },
        _ => None,
    }
}

/// `prefix` followed by the decimal `i`.
pub fn indexed_name(prefix: &str, i: usize) -> (r: String)
    ensures
        r@ == prefix@ + crate::text::dec_nat(i as nat),
{
    let mut s = string_from(prefix);
    push_u64(&mut s, i as u64);
    s
}

/// The typed discard call of a discard command.
pub fn discard_call(cmd: &[char]) -> (r: Expression)
{
    let name = if chars_eq(cmd, "pop_string_discard") {
        "popstringdiscard"
    } else if chars_eq(cmd, "pop_long_discard") {
        "poplongdiscard"
    } else {
        "popintdiscard"
    };
    call_named(string_from(name), Vec::new())
}

/// `push_array_int_leave_index_on_stack_<id>(index)`.
pub fn leave_index_array_call(array_id: i32, index: Expression) -> (r: Expression)
{
    let mut args: Vec<Expression> = Vec::new();
    args.push(index);
    call_named(cat_num("push_array_int_leave_index_on_stack_", array_id as i64), args)
}

/// Whether `e` contains a call of `name` whose first argument reads `it`
/// in source form.
pub open spec fn uses_leave_read(e: Expression, name: Seq<char>, it: Seq<char>) -> bool
    decreases e, 1nat, 0nat,
{
    match e {
        Expression::Call(c) => ((*c.callee matches Expression::Identifier(i) && i.name@ == name)
            && c.arguments@.len() > 0 && expr_text(c.arguments@[0]) == it) || some_arg_uses(
            e,
            name,
            it,
            c.arguments@.len(),
        ),
        Expression::ArrayAccess(a) => uses_leave_read(*a.array, name, it) || uses_leave_read(*a.index, name, it),
        Expression::PropertyAccess(p) => uses_leave_read(*p.object, name, it),
        Expression::BinaryOperation(b) => uses_leave_read(*b.left, name, it) || uses_leave_read(*b.right, name, it),
        Expression::UnaryOperation(u) => uses_leave_read(*u.operand, name, it),
        Expression::PushOperation(p) => uses_leave_read(*p.value, name, it),
        Expression::PopOperation(p) => match p.target {
            Some(t) => uses_leave_read(*t, name, it),
            None => false,
        },
        Expression::CallbackLiteral(cb) => some_arg_uses(e, name, it, cb.arguments@.len()),
        _ => false,
    }
}

/// Whether one of the first `k` arguments of the call or callback `e`
/// contains such a read.
pub open spec fn some_arg_uses(e: Expression, name: Seq<char>, it: Seq<char>, k: nat) -> bool
    decreases e, 0nat, k,
{
    match e {
        Expression::Call(c) => if k == 0 || k > c.arguments@.len() {
            false
        } else {
            proof {
                assert(decreases_to!(e => e->Call_0));
                assert(decreases_to!(e->Call_0 => e->Call_0.arguments));
                assert(decreases_to!(c.arguments => c.arguments@));
                assert(decreases_to!(c.arguments@ => c.arguments@[k - 1]));
            }
            some_arg_uses(e, name, it, (k - 1) as nat) || uses_leave_read(c.arguments@[k - 1], name, it)
        },
        Expression::CallbackLiteral(cb) => if k == 0 || k > cb.arguments@.len() {
            false
        } else {
            proof {
                assert(decreases_to!(e => e->CallbackLiteral_0));
                assert(decreases_to!(e->CallbackLiteral_0 => e->CallbackLiteral_0.arguments));
                assert(decreases_to!(cb.arguments => cb.arguments@));
                assert(decreases_to!(cb.arguments@ => cb.arguments@[k - 1]));
            }
            some_arg_uses(e, name, it, (k - 1) as nat) || uses_leave_read(cb.arguments@[k - 1], name, it)
        },
        _ => false,
    }
}

proof fn lemma_some_arg_uses_grows(e: Expression, name: Seq<char>, it: Seq<char>, k1: nat, k2: nat)
    requires
        k1 <= k2,
        e is Call ==> k2 <= e->Call_0.arguments@.len(),
        e is CallbackLiteral ==> k2 <= e->CallbackLiteral_0.arguments@.len(),
        some_arg_uses(e, name, it, k1),
    ensures
        some_arg_uses(e, name, it, k2),
    decreases k2 - k1,
{
    if k1 < k2 {
        lemma_some_arg_uses_grows(e, name, it, k1, (k2 - 1) as nat);
    }
}

/// Whether `value` contains the leave-index read of `array_id` at `index`.
pub fn expression_uses_leave_index_array_call(value: &Expression, array_id: i32, index: &Expression) -> (r: bool)
    ensures
        r == uses_leave_read(
            *value,
            "push_array_int_leave_index_on_stack_"@ + crate::text::dec_int(array_id as int),
            expr_text(*index),
        ),
    decreases value,
{
    let ghost nm = "push_array_int_leave_index_on_stack_"@ + crate::text::dec_int(array_id as int);
    let ghost it = expr_text(*index);
    match value {
        Expression::Call(c) => {
            let name = cat_num("push_array_int_leave_index_on_stack_", array_id as i64);
            let mut direct = false;
            if let Expression::Identifier(i) = &*c.callee {
                if str_eq(i.name.as_str(), name.as_str()) && c.arguments.len() > 0 {
                    let a = expr_str(&c.arguments[0]);
                    let b = expr_str(index);
                    direct = str_eq(a.as_str(), b.as_str());
                }
            }
            if direct {
                return true;
            }
            let mut k: usize = 0;
            while k < c.arguments.len()
                invariant
                    *value == Expression::Call(*c),
                    k <= c.arguments@.len(),
                    nm == "push_array_int_leave_index_on_stack_"@ + crate::text::dec_int(array_id as int),
                    it == expr_text(*index),
                    !some_arg_uses(*value, nm, it, k as nat),
                decreases c.arguments.len() - k,
            {
                proof {
                    assert(decreases_to!(*value => value->Call_0));
                    assert(decreases_to!(value->Call_0 => value->Call_0.arguments));
                    assert(decreases_to!(c.arguments => c.arguments@));
                    assert(decreases_to!(c.arguments@ => c.arguments@[k as int]));
                    assert(decreases_to!(value => c.arguments@[k as int]));
                }
                if expression_uses_leave_index_array_call(&c.arguments[k], array_id, index) {
                    proof {
                        assert(some_arg_uses(*value, nm, it, (k + 1) as nat));
                        lemma_some_arg_uses_grows(*value, nm, it, (k + 1) as nat, c.arguments@.len());
                    }
                    return true;
                }
                k = k + 1;
            }
            false
        },
        Expression::ArrayAccess(a) => expression_uses_leave_index_array_call(&a.array, array_id, index)
            || expression_uses_leave_index_array_call(&a.index, array_id, index),
        Expression::PropertyAccess(p) => expression_uses_leave_index_array_call(&p.object, array_id, index),
        Expression::BinaryOperation(b) => expression_uses_leave_index_array_call(&b.left, array_id, index)
            || expression_uses_leave_index_array_call(&b.right, array_id, index),
        Expression::UnaryOperation(u) => expression_uses_leave_index_array_call(&u.operand, array_id, index),
        Expression::PushOperation(p) => expression_uses_leave_index_array_call(&p.value, array_id, index),
        Expression::PopOperation(p) => match &p.target {
            Some(t) => expression_uses_leave_index_array_call(t, array_id, index),
            None => false,
        },
        Expression::CallbackLiteral(cb) => {
            let mut k: usize = 0;
            while k < cb.arguments.len()
                invariant
                    *value == Expression::CallbackLiteral(*cb),
                    k <= cb.arguments@.len(),
                    nm == "push_array_int_leave_index_on_stack_"@ + crate::text::dec_int(array_id as int),
                    it == expr_text(*index),
                    !some_arg_uses(*value, nm, it, k as nat),
                decreases cb.arguments.len() - k,
            {
                proof {
                    assert(decreases_to!(*value => value->CallbackLiteral_0));
                    assert(decreases_to!(value->CallbackLiteral_0 => value->CallbackLiteral_0.arguments));
                    assert(decreases_to!(cb.arguments => cb.arguments@));
                    assert(decreases_to!(cb.arguments@ => cb.arguments@[k as int]));
                    assert(decreases_to!(value => cb.arguments@[k as int]));
                }
                if expression_uses_leave_index_array_call(&cb.arguments[k], array_id, index) {
                    proof {
                        assert(some_arg_uses(*value, nm, it, (k + 1) as nat));
                        lemma_some_arg_uses_grows(*value, nm, it, (k + 1) as nat, cb.arguments@.len());
                    }
                    return true;
                }
                k = k + 1;
            }
            false
        },
        _ => false,
    }
}

/// Commands whose call keeps the values below it on the stack.
pub fn should_preserve_stack_before_statement(command: &[char]) -> (r: bool)
    ensures
        r == (command@ == "autosetup_setultra"@ || command@ == "cam2_resetsnapdistances"@
            || command@ == "cam2_setpositionangularinterpolation"@ || command@
            == "lobby_enterlobby_social_network"@),
{
    chars_eq(command, "autosetup_setultra") || chars_eq(command, "cam2_resetsnapdistances")
        || chars_eq(command, "cam2_setpositionangularinterpolation") || chars_eq(
        command,
        "lobby_enterlobby_social_network",
    )
}

/// Commands whose value keeps the values below it on the stack.
pub fn should_preserve_stack_before_value(command: &[char]) -> (r: bool)
    ensures
        r == (command@ == "unknown_command_20"@),
{
    chars_eq(command, "unknown_command_20")
}

/// The expression of a raw operand, for unknown push commands.
pub fn operand_expr(op: &OperandNode) -> (r: Expression)
    ensures
        match *op {
            OperandNode::Int(v) => r == Expression::NumberLiteral(NumberLiteral { value: v }),
            OperandNode::Long(v) => r == Expression::BigIntLiteral(BigIntLiteral { value: v }),
            OperandNode::String(t) => r matches Expression::StringLiteral(l) && l.value@ == t@,
            OperandNode::Local(idx) => r matches Expression::Identifier(i) && i.name@ == "local_"@
                + crate::text::dec_nat(idx as nat),
            OperandNode::VarRef(vr) => r matches Expression::Identifier(i) && i.name@ == varref_name(vr),
            OperandNode::VarBitRef(vbr) => r matches Expression::Identifier(i) && i.name@ == varbit_name(vbr),
            OperandNode::Array(id) => r matches Expression::ArrayAccess(a) && (*a.array matches Expression::Identifier(
                x,
            ) && x.name@ == "array_"@ + crate::text::dec_int(id as int)) && (*a.index matches Expression::Identifier(
                y,
            ) && y.name@ == "idx"@),
            _ => is_call_of(r, "pop"@, 0),
        },
{
    match op {
        OperandNode::Int(v) => num(*v),
        OperandNode::Long(v) => Expression::BigIntLiteral(BigIntLiteral { value: *v }),
        OperandNode::String(s) => str_lit(s.clone()),
        OperandNode::Local(idx) => ident(indexed_name("local_", *idx)),
        OperandNode::VarRef(vr) => ident(varref_identifier(vr)),
        OperandNode::VarBitRef(vbr) => ident(varbit_identifier(vbr)),
        OperandNode::Array(id) => Expression::ArrayAccess(
            ArrayAccess {
                array: Box::new(ident(cat_num("array_", *id as i64))),
                index: Box::new(ident(string_from("idx"))),
            },
        ),
        _ => pop_call_expr(),
    }
}

/// Commands that install a script hook on a component: `if_` or `cc_`
/// commands with `_seton` in their name.
pub fn is_interface_hook_opcode(cmd: &[char]) -> (r: bool)
    ensures
        r == (("if_"@.is_prefix_of(cmd@) || "cc_"@.is_prefix_of(cmd@)) && exists|i: int|
            0 <= i <= cmd@.len() && "_seton"@.is_prefix_of(#[trigger] cmd@.skip(i))),
        r ==> cmd@.len() >= 3,
{
    proof {
        reveal_strlit("if_");
        reveal_strlit("cc_");
    }
    let p = chars_of("_seton");
    (starts_with(cmd, "if_") || starts_with(cmd, "cc_")) && contains_sub(cmd, &p)
}

/// A non-zero byte operand selects a mode: `WithMode` is appended to the
/// name and the mode is passed last.
pub fn append_ui_operand_mode(name: &mut String, arguments: &mut Vec<Expression>, op: &OperandNode)
    ensures
        match *op {
            OperandNode::Byte(m) => if m != 0 {
                final(name)@ == old(name)@ + "WithMode"@ && final(arguments)@.len()
                    == old(arguments)@.len() + 1 && final(arguments)@ == old(arguments)@.push(
                    Expression::NumberLiteral(NumberLiteral { value: m as i32 }),
                )
            } else {
                final(name)@ == old(name)@ && final(arguments)@ == old(arguments)@
            },
            _ => final(name)@ == old(name)@ && final(arguments)@ == old(arguments)@,
        },
{
    if let OperandNode::Byte(mode) = op {
        if *mode != 0 {
            push_str(name, "WithMode");
            arguments.push(num(*mode as i32));
        }
    }
}

/// `cmd` without its three-character `if_`/`cc_` prefix, in camel case.
fn camel_tail(cmd: &[char]) -> (r: String)
    requires
        cmd@.len() >= 3,
{
    let tail = crate::text::slice_vec(cmd, 3, cmd.len());
    sanitize_camel(&tail)
}

/// The integer an expression names: a number, a `KEY_<n>` property, or a
/// named enum value.
pub fn literal_or_enum_i32(expr: &Expression, enum_value_names: &NameTable) -> (r: Option<i32>)
{
    match literal_i32(expr) {
        Some(v) => Some(v),
        None => enum_named_literal_i32(expr, enum_value_names),
    }
}

/// Whether the name of `entry` is `object.property`, split at its first
/// `.`.
pub open spec fn enum_entry_names(entry: (u64, String), object: Seq<char>, property: Seq<char>) -> bool {
    let q = entry.1@;
    let k = crate::text::index_of(q, '.');
    k < q.len() && q.take(k) == object && q.skip(k + 1) == property
}

/// The value of a named enum constant `Enum_N.PROP`, if the table has it.
pub fn enum_named_literal_i32(expr: &Expression, enum_value_names: &NameTable) -> (r: Option<i32>)
    ensures
        match *expr {
            Expression::PropertyAccess(p) => match *p.object {
                Expression::Identifier(o) => match r {
                    Some(v) => exists|i: int|
                        0 <= i < enum_value_names.entries@.len() && enum_entry_names(
                            #[trigger] enum_value_names.entries@[i],
                            o.name@,
                            p.property@,
                        ) && (forall|j: int|
                            0 <= j < i ==> !enum_entry_names(enum_value_names.entries@[j], o.name@, p.property@))
                            && v == (enum_value_names.entries@[i].0 as u32) as i32,
                    None => forall|i: int|
                        0 <= i < enum_value_names.entries@.len() ==> !enum_entry_names(
                            #[trigger] enum_value_names.entries@[i],
                            o.name@,
                            p.property@,
                        ),
                },
                _ => r is None,
            },
            _ => r is None,
        },
{
    let (object, property) = match expr {
        Expression::PropertyAccess(p) => match &*p.object {
            Expression::Identifier(o) => (o.name.as_str(), p.property.as_str()),
            _ => return None,
        },
        _ => return None,
    };
    let ghost o = object@;
    let ghost pr = property@;
    let mut i: usize = 0;
    while i < enum_value_names.entries.len()
        invariant
            i <= enum_value_names.entries@.len(),
            o == object@,
            pr == property@,
            *expr matches Expression::PropertyAccess(pa) && (*pa.object matches Expression::Identifier(id) && id.name@
                == o && pa.property@ == pr),
            forall|j: int| 0 <= j < i ==> !enum_entry_names(#[trigger] enum_value_names.entries@[j], o, pr),
        decreases enum_value_names.entries.len() - i,
    {
        let q = chars_of(enum_value_names.entries[i].1.as_str());
        if let Some((e, v)) = crate::text::split_once(&q, '.') {
            let es = string_of(&e);
            let vs = string_of(&v);
            if str_eq(es.as_str(), object) && str_eq(vs.as_str(), property) {
                let key = enum_value_names.entries[i].0;
                proof {
                    assert(q@ == enum_value_names.entries@[i as int].1@);
                    assert(enum_entry_names(enum_value_names.entries@[i as int], o, pr));
                }
                return Some((key as u32) as i32);
            }
        }
        i = i + 1;
    }
    None
}

/// The name of the script a hook calls: the catalog's export name of a
/// literal id (or `script<id>`), else the expression as written.
pub fn callback_script_name(expr: &Expression, script_catalog: &ScriptCatalog) -> (r: String)
    ensures
        r@ == (match literal_value(*expr) {
            Some(id) => match script_catalog.call_target_spec(id) {
                Some(m) => m.export_name@,
                None => "script"@ + crate::text::dec_int(id as int),
            },
            None => match *expr {
                Expression::Identifier(i) => i.name@,
                Expression::StringLiteral(v) => v.value@,
                _ => expr_text(*expr),
            },
        }),
{
    if let Some(raw_id) = literal_i32(expr) {
        return match script_catalog.resolve_call_target(raw_id) {
            Some(t) => t.export_name.clone(),
            None => cat_num("script", raw_id as i64),
        };
    }
    match expr {
        Expression::Identifier(i) => i.name.clone(),
        Expression::StringLiteral(s) => s.value.clone(),
        _ => expr_str(expr),
    }
}

/// The name of what a hook watches: for a literal id in 0..=65535, a
/// player var (its table name unless that is the plain `varplayer_<id>`,
/// else `varplayerint_<id>`), an inventory, a stat, a client var or a
/// client string var by the hook command; else the expression as written.
pub open spec fn watcher_name(cmd: Seq<char>, expr: Expression, var_names: NameTable) -> Seq<char> {
    match literal_value(expr) {
        Some(raw) => if raw < 0 || raw > 65535 {
            expr_text(expr)
        } else {
            let id = raw as int;
            if cmd == "if_setonvartransmit"@ || cmd == "cc_setonvartransmit"@ {
                let fallback = "varplayerint_"@ + crate::text::dec_int(id);
                match var_names.get_spec(crate::transpile::scope::var_key(VarDomain::Player, id as u16)) {
                    Some(n) => if n == "varplayer_"@ + crate::text::dec_int(id) {
                        fallback
                    } else {
                        n
                    },
                    None => fallback,
                }
            } else if cmd == "if_setoninvtransmit"@ || cmd == "cc_setoninvtransmit"@ {
                "inv_"@ + crate::text::dec_int(id)
            } else if cmd == "if_setonstattransmit"@ || cmd == "cc_setonstattransmit"@ {
                "stat_"@ + crate::text::dec_int(id)
            } else if cmd == "if_setonvarctransmit"@ || cmd == "cc_setonvarctransmit"@ {
                "varc_"@ + crate::text::dec_int(id)
            } else if cmd == "if_setonvarcstrtransmit"@ || cmd == "cc_setonvarcstrtransmit"@ {
                "varcstr_"@ + crate::text::dec_int(id)
            } else {
                expr_text(expr)
            }
        },
        None => expr_text(expr),
    }
}

/// The name of what a hook watches: a var, inventory, stat or client var
/// by id, depending on the hook command.
pub fn hook_watcher_name(cmd: &[char], expr: &Expression, var_names: &NameTable) -> (r: String)
    ensures
        r@ == watcher_name(cmd@, *expr, *var_names),
{
    let raw_id = match literal_i32(expr) {
        Some(v) => v,
        None => return expr_str(expr),
    };
    if raw_id < 0 || raw_id > 65535 {
        return expr_str(expr);
    }
    let id = raw_id as u16;
    if chars_eq(cmd, "if_setonvartransmit") || chars_eq(cmd, "cc_setonvartransmit") {
        let fallback = cat_num("varplayerint_", id as i64);
        let plain = cat_num("varplayer_", id as i64);
        return match var_names.get(var_key_of(VarDomain::Player, id)) {
            Some(name) => if str_eq(name.as_str(), plain.as_str()) {
                fallback
            } else {
                name.clone()
            },
            None => fallback,
        };
    }
    if chars_eq(cmd, "if_setoninvtransmit") || chars_eq(cmd, "cc_setoninvtransmit") {
        return cat_num("inv_", id as i64);
    }
    if chars_eq(cmd, "if_setonstattransmit") || chars_eq(cmd, "cc_setonstattransmit") {
        return cat_num("stat_", id as i64);
    }
    if chars_eq(cmd, "if_setonvarctransmit") || chars_eq(cmd, "cc_setonvarctransmit") {
        return cat_num("varc_", id as i64);
    }
    if chars_eq(cmd, "if_setonvarcstrtransmit") || chars_eq(cmd, "cc_setonvarcstrtransmit") {
        return cat_num("varcstr_", id as i64);
    }
    expr_str(expr)
}



// ---------------------------------------------------------------------------
// Control flow: what each instruction means for jumps
// ---------------------------------------------------------------------------

/// What an instruction means for control flow.
pub enum JumpKind {
    Return,
    Goto,
    Test(bool),
    Compare(BinaryOp),
    Switch,
    NotJump,
}

/// The control-flow meaning of a command: `return`, `branch`, the two
/// tests (the flag says whether the test is negated), the comparing
/// branches with their operator, `switch`, or none.
pub open spec fn jump_kind(cmd: Seq<char>) -> JumpKind {
    if cmd == "return"@ {
        JumpKind::Return
    } else if cmd == "branch"@ {
        JumpKind::Goto
    } else if cmd == "branch_if_true"@ {
        JumpKind::Test(false)
    } else if cmd == "branch_if_false"@ {
        JumpKind::Test(true)
    } else if cmd == "branch_not"@ || cmd == "long_branch_not"@ {
        JumpKind::Compare(BinaryOp::Ne)
    } else if cmd == "branch_equals"@ || cmd == "long_branch_equals"@ {
        JumpKind::Compare(BinaryOp::Eq)
    } else if cmd == "branch_less_than"@ || cmd == "long_branch_less_than"@ {
        JumpKind::Compare(BinaryOp::Lt)
    } else if cmd == "branch_greater_than"@ || cmd == "long_branch_greater_than"@ {
        JumpKind::Compare(BinaryOp::Gt)
    } else if cmd == "branch_less_than_or_equals"@ || cmd == "long_branch_less_than_or_equals"@ {
        JumpKind::Compare(BinaryOp::Le)
    } else if cmd == "branch_greater_than_or_equals"@ || cmd
        == "long_branch_greater_than_or_equals"@ {
        JumpKind::Compare(BinaryOp::Ge)
    } else if cmd == "switch"@ {
        JumpKind::Switch
    } else {
        JumpKind::NotJump
    }
}

/// A statement that transfers control: a jump, a switch or a return.
pub open spec fn is_jump_stmt(s: Option<RecoveredStmt>) -> bool {
    s matches Some(x) && (x is Goto || x is GotoStack || x is Branch || x is BranchBinary
        || x is Switch || x is Return)
}

/// The (value, target) pairs of switch cases.
pub open spec fn switch_pairs(cases: Seq<SwitchCase>) -> Seq<(i32, usize)> {
    cases.map_values(|c: SwitchCase| (c.value, c.target))
}

/// The statement recovered from `instr` transfers control exactly as the
/// instruction does: a return for `return`, a jump to the instruction's
/// own target for a branch, the instruction's own cases for a switch, and
/// no control transfer for any other command.
pub open spec fn recovered_jump_agrees(s: Option<RecoveredStmt>, instr: InstructionNode) -> bool {
    match jump_kind(instr.command@) {
        JumpKind::Return => s matches Some(RecoveredStmt::Return(_)),
        JumpKind::Goto => match instr.operand {
            OperandNode::Branch(t) => s == Some(RecoveredStmt::Goto(t)) || (s matches Some(
                RecoveredStmt::GotoStack { target, .. },
            ) && target == t),
            _ => s is None,
        },
        JumpKind::Test(neg) => match instr.operand {
            OperandNode::Branch(t) => s matches Some(RecoveredStmt::Branch { target, negated, .. })
                && target == t && negated == neg,
            _ => s is None,
        },
        JumpKind::Compare(want) => match instr.operand {
            OperandNode::Branch(t) => s matches Some(RecoveredStmt::BranchBinary { op, target, .. })
                && op == want && target == t,
            _ => s is None,
        },
        JumpKind::Switch => match instr.operand {
            OperandNode::Switch(cases) => s matches Some(RecoveredStmt::Switch { cases: pairs, .. })
                && pairs@ == switch_pairs(cases@),
            _ => s is None,
        },
        JumpKind::NotJump => !is_jump_stmt(s),
    }
}

/// What a jump reads from the expression stack `stack` before it: a
/// return returns the one value, or `stack(...)` of all of them; a test
/// reads the top value; a comparison compares the value below the top
/// (unchanged when nothing lies under it) with the top.
pub open spec fn jump_operands_agree(s: Option<RecoveredStmt>, instr: InstructionNode, stack: Seq<Expression>) -> bool {
    match jump_kind(instr.command@) {
        JumpKind::Return => {
            &&& stack.len() == 1 ==> s == Some(RecoveredStmt::Return(Some(stack[0])))
            &&& stack.len() >= 2 ==> (s matches Some(RecoveredStmt::Return(Some(Expression::Call(c))))
                && c.arguments@ == stack && *c.callee == Expression::Identifier(
                Identifier { name: c.callee->Identifier_0.name },
            ) && c.callee->Identifier_0.name@ == "stack"@)
        },
        JumpKind::Test(_) => (instr.operand is Branch && stack.len() == 1) ==> (s matches Some(
            RecoveredStmt::Branch { condition, .. },
        ) && condition == stack[0]),
        JumpKind::Compare(_) => (instr.operand is Branch && stack.len() >= 2) ==> (s matches Some(
            RecoveredStmt::BranchBinary { left, right, .. },
        ) && right == stack.last() && (stack.len() == 2 ==> left == stack[0])),
        _ => true,
    }
}

/// The pushes of a constant, a local, a variable or a variable bit, which
/// fold into the expression stack and leave no statement.
pub open spec fn is_folded_push(c: Seq<char>) -> bool {
    c == "push_constant_int"@ || c == "push_long_constant"@ || c == "push_constant_string"@ || c
        == "push_int_local"@ || c == "push_string_local"@ || c == "push_long_local"@ || c == "push_var"@ || c
        == "push_varbit"@
}

/// The stores that can be folded into one multi-value assignment.
pub open spec fn is_stacked_pop_cmd(cmd: Seq<char>) -> bool {
    cmd == "pop_int_local"@ || cmd == "pop_string_local"@ || cmd == "pop_long_local"@ || cmd
        == "pop_varbit"@
}

/// Instructions `from .. from + count` exist and are all stacked stores.
pub open spec fn skip_ok(instrs: Seq<InstructionNode>, from: int, count: int) -> bool {
    &&& 0 <= count
    &&& from + count <= instrs.len()
    &&& forall|j: int| from <= j < from + count ==> is_stacked_pop_cmd(#[trigger] instrs[j].command@)
}

/// No stacked store is a control-flow command.
pub proof fn lemma_stacked_pops_are_not_jumps(cmd: Seq<char>)
    requires
        is_stacked_pop_cmd(cmd),
    ensures
        jump_kind(cmd) is NotJump,
{
    reveal_strlit("pop_int_local");
    reveal_strlit("pop_string_local");
    reveal_strlit("pop_long_local");
    reveal_strlit("pop_varbit");
    assert(cmd.len() > 0 && cmd[0] == 'p');
    lemma_p_commands_are_not_jumps(cmd);
}

/// The pushes that fold into the stack are no jumps, and no `pop_varbit`.
pub proof fn lemma_folded_pushes_are_not_jumps(cmd: Seq<char>)
    requires
        is_folded_push(cmd),
    ensures
        jump_kind(cmd) is NotJump,
        cmd != "pop_varbit"@,
{
    reveal_strlit("push_constant_int");
    reveal_strlit("push_long_constant");
    reveal_strlit("push_constant_string");
    reveal_strlit("push_int_local");
    reveal_strlit("push_string_local");
    reveal_strlit("push_long_local");
    reveal_strlit("push_var");
    reveal_strlit("push_varbit");
    reveal_strlit("pop_varbit");
    assert(cmd.len() > 1 && cmd[0] == 'p' && cmd[1] == 'u');
    assert("pop_varbit"@[1] == 'o');
    lemma_p_commands_are_not_jumps(cmd);
}

proof fn lemma_p_commands_are_not_jumps(cmd: Seq<char>)
    requires
        cmd.len() > 0,
        cmd[0] == 'p',
    ensures
        jump_kind(cmd) is NotJump,
{
    reveal_strlit("return");
    assert("return"@[0] != 'p');
    reveal_strlit("branch");
    assert("branch"@[0] != 'p');
    reveal_strlit("branch_if_true");
    assert("branch_if_true"@[0] != 'p');
    reveal_strlit("branch_if_false");
    assert("branch_if_false"@[0] != 'p');
    reveal_strlit("branch_not");
    assert("branch_not"@[0] != 'p');
    reveal_strlit("long_branch_not");
    assert("long_branch_not"@[0] != 'p');
    reveal_strlit("branch_equals");
    assert("branch_equals"@[0] != 'p');
    reveal_strlit("long_branch_equals");
    assert("long_branch_equals"@[0] != 'p');
    reveal_strlit("branch_less_than");
    assert("branch_less_than"@[0] != 'p');
    reveal_strlit("long_branch_less_than");
    assert("long_branch_less_than"@[0] != 'p');
    reveal_strlit("branch_greater_than");
    assert("branch_greater_than"@[0] != 'p');
    reveal_strlit("long_branch_greater_than");
    assert("long_branch_greater_than"@[0] != 'p');
    reveal_strlit("branch_less_than_or_equals");
    assert("branch_less_than_or_equals"@[0] != 'p');
    reveal_strlit("long_branch_less_than_or_equals");
    assert("long_branch_less_than_or_equals"@[0] != 'p');
    reveal_strlit("branch_greater_than_or_equals");
    assert("branch_greater_than_or_equals"@[0] != 'p');
    reveal_strlit("long_branch_greater_than_or_equals");
    assert("long_branch_greater_than_or_equals"@[0] != 'p');
    reveal_strlit("switch");
    assert("switch"@[0] != 'p');
}

// ---------------------------------------------------------------------------
// Stack helpers
// ---------------------------------------------------------------------------

/// The top of the stack, or `pop()` when it is empty.
fn pop_or_unknown(stack: &mut Vec<Expression>) -> (r: Expression)
    ensures
        old(stack)@.len() > 0 ==> final(stack)@ == old(stack)@.drop_last() && r == old(stack)@.last(),
        old(stack)@.len() == 0 ==> final(stack)@ == old(stack)@ && is_call_of(r, "pop"@, 0),
{
    match stack.pop() {
        Some(e) => e,
        None => pop_call_expr(),
    }
}

/// The top `count` values in stack order; `pop()` stands for each that
/// the stack lacks.
fn pop_args(stack: &mut Vec<Expression>, count: usize) -> (r: Vec<Expression>)
    ensures
        r@.len() == count,
        old(stack)@.len() >= count ==> final(stack)@ == old(stack)@.take(old(stack)@.len() - count)
            && r@ == old(stack)@.skip(old(stack)@.len() - count),
        old(stack)@.len() < count ==> final(stack)@.len() == 0,
{
    let ghost n0 = stack@.len();
    let ghost orig = stack@;
    let mut args: Vec<Expression> = Vec::new();
    let mut k: usize = 0;
    while k < count
        invariant
            k <= count,
            args@.len() == k,
            n0 == orig.len(),
            k <= n0 ==> stack@ == orig.take(n0 - k) && args@ == orig.subrange(n0 - k, n0 as int),
            k > n0 ==> stack@.len() == 0,
        decreases count - k,
    {
        let ghost before = args@;
        let e = pop_or_unknown(stack);
        args.insert(0, e);
        proof {
            if k + 1 <= n0 {
                assert(args@ =~= orig.subrange(n0 - (k + 1), n0 as int));
            }
        }
        k = k + 1;
    }
    args
}

/// Moves the whole stack out, leaving a `pop()` for each value taken.
fn take_stack(stack: &mut Vec<Expression>) -> (r: Vec<Expression>)
    ensures
        r@ == old(stack)@,
        final(stack)@.len() == old(stack)@.len(),
        forall|i: int| 0 <= i < final(stack)@.len() ==> is_call_of(#[trigger] final(stack)@[i], "pop"@, 0),
{
    let mut taken: Vec<Expression> = Vec::new();
    std::mem::swap(&mut taken, stack);
    let mut i: usize = 0;
    while i < taken.len()
        invariant
            i <= taken@.len(),
            stack@.len() == i,
            forall|j: int| 0 <= j < stack@.len() ==> is_call_of(#[trigger] stack@[j], "pop"@, 0),
        decreases taken@.len() - i,
    {
        stack.push(pop_call_expr());
        i = i + 1;
    }
    taken
}

/// `stackpush_then(values.., last)`: the values below stay on the stack
/// while `last` runs.
fn stackpush_then(mut values: Vec<Expression>, last: Expression) -> (r: Expression)
    ensures
        is_call_of(r, "stackpush_then"@, values@.len() + 1 as int),
        stackpush_of(r, values@.push(last)),
{
    values.push(last);
    call_named(string_from("stackpush_then"), values)
}

/// `r` is `stackpush_then(args..)`.
pub open spec fn stackpush_of(r: Expression, args: Seq<Expression>) -> bool {
    r matches Expression::Call(c) && (*c.callee matches Expression::Identifier(i) && i.name@ == "stackpush_then"@)
        && c.arguments@ == args
}

/// A statement that keeps the values below it: when the stack is not
/// empty, they are pushed back before `statement` and read as `pop()`
/// afterwards.
fn preserve_stack_before_statement(stack: &mut Vec<Expression>, statement: Expression) -> (r: RecoveredStmt)
    ensures
        old(stack)@.len() == 0 ==> r == RecoveredStmt::Expression(statement) && final(stack)@ == old(stack)@,
        old(stack)@.len() > 0 ==> (r matches RecoveredStmt::Expression(e) && is_call_of(
            e,
            "stackpush_then"@,
            old(stack)@.len() + 1 as int,
        ) && stackpush_of(e, old(stack)@.push(statement))),
        old(stack)@.len() > 0 ==> forall|i: int|
            0 <= i < final(stack)@.len() ==> is_call_of(#[trigger] final(stack)@[i], "pop"@, 0),
        final(stack)@.len() == old(stack)@.len(),
{
    if stack.len() == 0 {
        return RecoveredStmt::Expression(statement);
    }
    let taken = take_stack(stack);
    RecoveredStmt::Expression(stackpush_then(taken, statement))
}

/// A value computed after the values below it are pushed back.
fn preserve_stack_before_value(stack: &mut Vec<Expression>, value: Expression) -> (r: Expression)
    ensures
        old(stack)@.len() == 0 ==> r == value && final(stack)@ == old(stack)@,
        old(stack)@.len() > 0 ==> is_call_of(r, "stackpush_then"@, old(stack)@.len() + 1 as int),
        final(stack)@.len() == old(stack)@.len(),
{
    if stack.len() == 0 {
        return value;
    }
    let taken = take_stack(stack);
    stackpush_then(taken, value)
}

/// `push(call)` as a statement, its result then read as `pop()`.
fn materialize_call_result(stack: &mut Vec<Expression>, call: Expression) -> (r: RecoveredStmt)
    ensures
        r is Expression,
        final(stack)@.len() == old(stack)@.len() + 1,
{
    let push_call = push_call_expr(call);
    if stack.len() == 0 {
        stack.push(pop_call_expr());
        return RecoveredStmt::Expression(push_call);
    }
    let taken = take_stack(stack);
    stack.push(pop_call_expr());
    RecoveredStmt::Expression(stackpush_then(taken, push_call))
}

/// `e` is `stackassign_1("<target>", value)`.
pub open spec fn stackassign_of(e: Expression, target: Seq<char>, value: Expression) -> bool {
    e matches Expression::Call(c) && (*c.callee matches Expression::Identifier(i) && i.name@ == "stackassign_1"@)
        && c.arguments@.len() == 2 && (c.arguments@[0] matches Expression::StringLiteral(l) && l.value@ == target)
        && c.arguments@[1] == value
}

/// `stackassign_1("target", value)`, keeping the values below it.
fn preserve_stack_before_assignment(stack: &mut Vec<Expression>, target: String, value: Expression) -> (r: RecoveredStmt)
    ensures
        r is Expression,
        final(stack)@.len() == old(stack)@.len(),
        old(stack)@.len() == 0 ==> (r matches RecoveredStmt::Expression(e) && stackassign_of(e, target@, value))
            && final(stack)@ == old(stack)@,
        old(stack)@.len() > 0 ==> (r matches RecoveredStmt::Expression(e) && (e matches Expression::Call(c)
            && (*c.callee matches Expression::Identifier(i) && i.name@ == "stackpush_then"@)
            && c.arguments@.len() == old(stack)@.len() + 1 && c.arguments@.drop_last() == old(stack)@
            && stackassign_of(c.arguments@.last(), target@, value))),
        old(stack)@.len() > 0 ==> forall|i: int|
            0 <= i < final(stack)@.len() ==> is_call_of(#[trigger] final(stack)@[i], "pop"@, 0),
{
    let mut args: Vec<Expression> = Vec::new();
    args.push(str_lit(target));
    args.push(value);
    let assignment = call_named(string_from("stackassign_1"), args);
    let r = preserve_stack_before_statement(stack, assignment);
    proof {
        if old(stack)@.len() > 0 {
            assert(old(stack)@.push(assignment).drop_last() =~= old(stack)@);
        }
    }
    r
}

/// Whether any value is one result of a multi-value call.
fn any_multi_result(values: &Vec<Expression>, from: usize) -> (r: bool)
    requires
        from <= values@.len(),
    ensures
        r == exists|k: int|
            from <= k < values@.len() && (match #[trigger] values@[k] {
                Expression::PropertyAccess(a) => *a.object is Call,
                Expression::ArrayAccess(a) => *a.array is Call,
                _ => false,
            }),
{
    let mut i: usize = from;
    while i < values.len()
        invariant
            from <= i <= values@.len(),
            forall|k: int|
                from <= k < i ==> !(match #[trigger] values@[k] {
                    Expression::PropertyAccess(a) => *a.object is Call,
                    Expression::ArrayAccess(a) => *a.array is Call,
                    _ => false,
                }),
        decreases values@.len() - i,
    {
        if is_multi_result_access_value(&values[i]) {
            return true;
        }
        i = i + 1;
    }
    false
}

/// Whether a store of `value` has to keep the values below it.
fn should_preserve_stack_before_assignment_value(stack: &Vec<Expression>, value: &Expression) -> (r: bool)
    ensures
        r ==> stack@.len() > 0,
{
    stack.len() > 0 && !is_multi_result_access_value(value) && !any_multi_result(stack, 0)
}


/// A statement that transfers no control.
pub open spec fn is_plain_stmt(s: RecoveredStmt) -> bool {
    s is Expression || s is Assignment || s is Comment
}

/// The symbolic run's state: the expression stack, the stores still to
/// skip after a folded multi-value assignment, and the returns that read
/// a value a call pushed just before them.
struct RecoveryState {
    stack: Vec<Expression>,
    skip_count: usize,
    return_pop_targets: Vec<usize>,
}

/// Expression recovery over one instruction stream.
/// Walking on from instruction `next` with `above` values above a call's
/// result: whether a branch target is reached before an instruction pops
/// that result.
pub open spec fn crosses_from(
    instrs: Seq<InstructionNode>,
    targets: Seq<usize>,
    next: int,
    above: int,
    build: u32,
    catalog: ScriptCatalog,
    sigs: SignatureMap,
    tables: EffectTables,
) -> bool
    decreases instrs.len() - next,
{
    if next < 0 || next >= instrs.len() {
        false
    } else if targets.contains(next as usize) {
        true
    } else {
        let e = stack_effect_of(instrs[next].command@, instrs[next].operand, build, catalog, sigs, tables);
        if e.pops > above {
            false
        } else {
            let v = above - e.pops + e.pushes;
            crosses_from(
                instrs,
                targets,
                next + 1,
                if v > usize::MAX {
                    usize::MAX as int
                } else {
                    v
                },
                build,
                catalog,
                sigs,
                tables,
            )
        }
    }
}

pub struct ExprRecovery<'a> {
    instructions: &'a [InstructionNode],
    var_names: &'a NameTable,
    enum_value_names: &'a NameTable,
    script_catalog: &'a ScriptCatalog,
    script_signatures: &'a SignatureMap,
    build: u32,
    branch_targets: Vec<usize>,
    tables: EffectTables,
}

impl<'a> ExprRecovery<'a> {
    /// The instructions being recovered.
    pub closed spec fn instructions_view(&self) -> Seq<InstructionNode> {
        self.instructions@
    }

    /// The client build whose stack effects apply.
    pub closed spec fn build_view(&self) -> u32 {
        self.build
    }

    /// The extracted tables stack effects are read from.
    pub closed spec fn tables_view(&self) -> EffectTables {
        self.tables
    }

    /// Recovery for build 0 (no build-specific stack effects).
    pub fn new(
        instructions: &'a [InstructionNode],
        var_names: &'a NameTable,
        component_names: &'a NameTable,
        enum_value_names: &'a NameTable,
        script_catalog: &'a ScriptCatalog,
        script_signatures: &'a SignatureMap,
    ) -> (r: Self)
        ensures
            r.instructions_view() == instructions@,
            r.build_view() == 0,
            r.tables_view().stack_effects_view() == Seq::<char>::empty(),
            r.tables_view().signatures_view() == Seq::<String>::empty(),
    {
        Self::new_for_build(
            instructions,
            var_names,
            component_names,
            enum_value_names,
            script_catalog,
            script_signatures,
            0,
        )
    }

    /// Recovery with the stack effects of client build `build`.
    pub fn new_for_build(
        instructions: &'a [InstructionNode],
        var_names: &'a NameTable,
        _component_names: &'a NameTable,
        enum_value_names: &'a NameTable,
        script_catalog: &'a ScriptCatalog,
        script_signatures: &'a SignatureMap,
        build: u32,
    ) -> (r: Self)
        ensures
            r.instructions_view() == instructions@,
            r.build_view() == build,
            r.tables_view().stack_effects_view() == Seq::<char>::empty(),
            r.tables_view().signatures_view() == Seq::<String>::empty(),
    {
        ExprRecovery {
            instructions,
            var_names,
            enum_value_names,
            script_catalog,
            script_signatures,
            build,
            branch_targets: collect_branch_targets(instructions),
            tables: EffectTables::new(),
        }
    }

    /// The same recovery reading stack effects from `tables` as well.
    pub fn with_effect_tables(self, tables: EffectTables) -> (r: Self)
        ensures
            r.instructions_view() == self.instructions_view(),
            r.build_view() == self.build_view(),
            r.tables_view() == tables,
    {
        ExprRecovery { tables, ..self }
    }

    /// One recovered statement per instruction (`None` where the
    /// instruction only fed the expression stack). Control flow is kept
    /// exactly: each `return` gives a return, each branch a jump to its own
    /// target, each switch its own cases, and nothing else transfers
    /// control.
    pub fn recover(self) -> (r: Vec<Option<RecoveredStmt>>)
        ensures
            r@.len() == self.instructions_view().len(),
            forall|i: int|
                0 <= i < r@.len() ==> recovered_jump_agrees(
                    #[trigger] r@[i],
                    self.instructions_view()[i],
                ),
            forall|i: int|
                0 <= i < r@.len() && is_folded_push(self.instructions_view()[i].command@) ==> #[trigger] r@[i]
                    is None,
    {
        let len = self.instructions.len();
        let mut stmts: Vec<Option<RecoveredStmt>> = Vec::new();
        let mut st = RecoveryState { stack: Vec::new(), skip_count: 0, return_pop_targets: Vec::new() };
        let mut i: usize = 0;
        while i < len
            invariant
                len == self.instructions@.len(),
                i <= len,
                stmts@.len() == i,
                forall|k: int|
                    0 <= k < i ==> recovered_jump_agrees(#[trigger] stmts@[k], self.instructions@[k]),
                forall|k: int|
                    0 <= k < i && is_folded_push(self.instructions@[k].command@) ==> #[trigger] stmts@[k] is None,
                skip_ok(self.instructions@, i as int, st.skip_count as int),
            decreases len - i,
        {
            if st.skip_count > 0 {
                proof {
                    assert(is_stacked_pop_cmd(self.instructions@[i as int].command@));
                    lemma_stacked_pops_are_not_jumps(self.instructions@[i as int].command@);
                }
                st.skip_count = st.skip_count - 1;
                stmts.push(None);
            } else {
                let instr = &self.instructions[i];
                let cmd = chars_of(instr.command.as_str());
                let effect = stack_effect(
                    &cmd,
                    instr.command.as_str(),
                    &instr.operand,
                    self.build,
                    self.script_catalog,
                    self.script_signatures,
                    &self.tables,
                );
                let s = self.process_instruction(&mut st, i, instr, &cmd, &effect);
                stmts.push(s);
            }
            i = i + 1;
        }
        stmts
    }

    fn process_instruction(
        &self,
        st: &mut RecoveryState,
        index: usize,
        instr: &InstructionNode,
        cmd: &[char],
        effect: &StackEffect,
    ) -> (r: Option<RecoveredStmt>)
        requires
            index < self.instructions@.len(),
            *instr == self.instructions@[index as int],
            cmd@ == instr.command@,
            old(st).skip_count == 0,
        ensures
            recovered_jump_agrees(r, *instr),
            jump_operands_agree(r, *instr, old(st).stack@),
            is_folded_push(instr.command@) ==> r is None,
            skip_ok(self.instructions@, index + 1, final(st).skip_count as int),
    {
        proof {
            if is_folded_push(instr.command@) {
                lemma_folded_pushes_are_not_jumps(instr.command@);
            }
        }
        let op = &instr.operand;
        if chars_eq(cmd, "return") {
            let n = st.stack.len();
            let val = if n == 0 {
                if contains_usize(&st.return_pop_targets, index) {
                    Some(pop_call_expr())
                } else {
                    None
                }
            } else if n == 1 {
                st.stack.pop()
            } else {
                let mut taken: Vec<Expression> = Vec::new();
                std::mem::swap(&mut taken, &mut st.stack);
                Some(call_named(string_from("stack"), taken))
            };
            return Some(RecoveredStmt::Return(val));
        }
        if chars_eq(cmd, "branch") {
            if let OperandNode::Branch(target) = op {
                let mut values: Vec<Expression> = Vec::new();
                std::mem::swap(&mut values, &mut st.stack);
                if values.len() == 0 {
                    return Some(RecoveredStmt::Goto(*target));
                }
                return Some(RecoveredStmt::GotoStack { target: *target, values });
            }
            return None;
        }
        let is_true_test = chars_eq(cmd, "branch_if_true");
        if is_true_test || chars_eq(cmd, "branch_if_false") {
            let negated = !is_true_test;
            if let OperandNode::Branch(target) = op {
                let condition = pop_or_unknown(&mut st.stack);
                let condition = preserve_stack_before_value(&mut st.stack, condition);
                st.stack = Vec::new();
                return Some(RecoveredStmt::Branch { condition, target: *target, negated });
            }
            return None;
        }
        let compare_op = if chars_eq(cmd, "branch_not") || chars_eq(cmd, "long_branch_not") {
            Some(BinaryOp::Ne)
        } else if chars_eq(cmd, "branch_equals") || chars_eq(cmd, "long_branch_equals") {
            Some(BinaryOp::Eq)
        } else if chars_eq(cmd, "branch_less_than") || chars_eq(cmd, "long_branch_less_than") {
            Some(BinaryOp::Lt)
        } else if chars_eq(cmd, "branch_greater_than") || chars_eq(cmd, "long_branch_greater_than") {
            Some(BinaryOp::Gt)
        } else if chars_eq(cmd, "branch_less_than_or_equals") || chars_eq(
            cmd,
            "long_branch_less_than_or_equals",
        ) {
            Some(BinaryOp::Le)
        } else if chars_eq(cmd, "branch_greater_than_or_equals") || chars_eq(
            cmd,
            "long_branch_greater_than_or_equals",
        ) {
            Some(BinaryOp::Ge)
        } else {
            None
        };
        if let Some(bop) = compare_op {
            if let OperandNode::Branch(target) = op {
                let right = pop_or_unknown(&mut st.stack);
                let left = pop_or_unknown(&mut st.stack);
                let left = preserve_stack_before_value(&mut st.stack, left);
                st.stack = Vec::new();
                return Some(RecoveredStmt::BranchBinary { op: bop, left, right, target: *target });
            }
            return None;
        }
        if chars_eq(cmd, "switch") {
            if let OperandNode::Switch(cases) = op {
                let discriminant = pop_or_unknown(&mut st.stack);
                let discriminant = preserve_stack_before_value(&mut st.stack, discriminant);
                let mut pairs: Vec<(i32, usize)> = Vec::new();
                let mut k: usize = 0;
                while k < cases.len()
                    invariant
                        k <= cases@.len(),
                        pairs@ == switch_pairs(cases@.take(k as int)),
                    decreases cases@.len() - k,
                {
                    pairs.push((cases[k].value, cases[k].target));
                    proof {
                        assert(cases@.take(k + 1) =~= cases@.take(k as int).push(cases@[k as int]));
                        assert(pairs@ =~= switch_pairs(cases@.take(k + 1)));
                    }
                    k = k + 1;
                }
                proof {
                    assert(cases@.take(cases@.len() as int) =~= cases@);
                }
                return Some(RecoveredStmt::Switch { discriminant, cases: pairs });
            }
            return None;
        }
        let r = self.process_other(st, index, instr, cmd, effect);
        r
    }

    /// Every command that transfers no control.
    fn process_other(
        &self,
        st: &mut RecoveryState,
        index: usize,
        instr: &InstructionNode,
        cmd: &[char],
        effect: &StackEffect,
    ) -> (r: Option<RecoveredStmt>)
        requires
            index < self.instructions@.len(),
            *instr == self.instructions@[index as int],
            cmd@ == instr.command@,
            old(st).skip_count == 0,
        ensures
            r matches Some(s) ==> is_plain_stmt(s),
            is_folded_push(instr.command@) ==> r is None,
            skip_ok(self.instructions@, index + 1, final(st).skip_count as int),
    {
        let cmd_str = instr.command.as_str();
        let op = &instr.operand;
        if let Some(r) = self.process_value(st, index, cmd, cmd_str, op) {
            return r;
        }
        if let Some(r) = self.process_results(&mut st.stack, cmd, cmd_str) {
            return r;
        }
        if let Some(r) = self.process_ui(&mut st.stack, cmd, op) {
            return r;
        }
        process_default(&mut st.stack, cmd, cmd_str, op, effect)
    }
}


impl<'a> ExprRecovery<'a> {
    /// Pushes, stores, arithmetic, string joins and script calls; `None`
    /// when `cmd` is none of them.
    fn process_value(
        &self,
        st: &mut RecoveryState,
        index: usize,
        cmd: &[char],
        cmd_str: &str,
        op: &OperandNode,
    ) -> (r: Option<Option<RecoveredStmt>>)
        requires
            index < self.instructions@.len(),
            cmd@ == self.instructions@[index as int].command@,
            cmd_str@ == cmd@,
            old(st).skip_count == 0,
        ensures
            r matches Some(Some(s)) ==> is_plain_stmt(s),
            is_folded_push(cmd@) ==> r == Some(None::<RecoveredStmt>),
            skip_ok(self.instructions@, index + 1, final(st).skip_count as int),
    {
        proof {
            if is_folded_push(cmd@) {
                lemma_folded_pushes_are_not_jumps(cmd@);
            }
        }
        if chars_eq(cmd, "push_constant_int") {
            if let OperandNode::Int(v) = op {
                st.stack.push(call_named(string_from("intconst"), vec![num(*v)]));
            }
            return Some(None);
        }
        if chars_eq(cmd, "push_long_constant") {
            if let OperandNode::Long(v) = op {
                st.stack.push(Expression::BigIntLiteral(BigIntLiteral { value: *v }));
            }
            return Some(None);
        }
        if chars_eq(cmd, "push_constant_string") {
            match op {
                OperandNode::String(text) => {
                    st.stack.push(str_lit(text.clone()));
                },
                OperandNode::Int(v) => {
                    let e = self.constant_int_expr(*v);
                    st.stack.push(e);
                },
                OperandNode::Long(v) => {
                    st.stack.push(
                        call_named(
                            string_from("longconst"),
                            vec![Expression::BigIntLiteral(BigIntLiteral { value: *v })],
                        ),
                    );
                },
                _ => {},
            }
            return Some(None);
        }
        if chars_eq(cmd, "push_var") || chars_eq(cmd, "push_varc_int") || chars_eq(cmd, "push_varc_string")
            || chars_eq(cmd, "push_varclan") || chars_eq(cmd, "push_varclan_long") || chars_eq(
            cmd,
            "push_varclan_string",
        ) || chars_eq(cmd, "push_varclansetting") || chars_eq(cmd, "push_varclansetting_long")
            || chars_eq(cmd, "push_varclansetting_string") {
            if let OperandNode::VarRef(vr) = op {
                st.stack.push(ident(varref_identifier(vr)));
            }
            return Some(None);
        }
        if chars_eq(cmd, "push_varbit") || chars_eq(cmd, "push_varclanbit") || chars_eq(
            cmd,
            "push_varclansettingbit",
        ) {
            if let OperandNode::VarBitRef(vbr) = op {
                st.stack.push(ident(varbit_identifier(vbr)));
            }
            return Some(None);
        }
        if chars_eq(cmd, "pop_varbit") {
            if let Some(stmt) = self.recover_stacked_assignment(st, index) {
                return Some(Some(stmt));
            }
            if let OperandNode::VarBitRef(vbr) = op {
                let value = pop_or_unknown(&mut st.stack);
                let name = varbit_identifier(vbr);
                if should_preserve_stack_before_assignment_value(&st.stack, &value) {
                    return Some(Some(preserve_stack_before_assignment(&mut st.stack, name, value)));
                }
                return Some(
                    Some(RecoveredStmt::Assignment { target: name, value, var_type: string_from("number") }),
                );
            }
            return Some(None);
        }
        if chars_eq(cmd, "push_int_local") || chars_eq(cmd, "push_string_local") || chars_eq(
            cmd,
            "push_long_local",
        ) {
            if let OperandNode::Local(idx) = op {
                let (prefix, _) = local_type(cmd);
                let p = cat(prefix, "_");
                st.stack.push(ident(indexed_name(p.as_str(), *idx)));
            }
            return Some(None);
        }
        if chars_eq(cmd, "push_array_int") || chars_eq(cmd, "push_array_string") {
            if let OperandNode::Array(id) = op {
                let idx = match st.stack.pop() {
                    Some(e) => e,
                    None => return Some(None),
                };
                st.stack.push(array_access(ident(cat_num("array_", *id as i64)), idx));
            }
            return Some(None);
        }
        if chars_eq(cmd, "push_array_int_leave_index_on_stack") {
            if let OperandNode::Array(id) = op {
                let idx = match st.stack.pop() {
                    Some(e) => e,
                    None => return Some(None),
                };
                let access = leave_index_array_call(*id, idx.clone());
                st.stack.push(idx);
                st.stack.push(access);
            }
            return Some(None);
        }
        if chars_eq(cmd, "push_array_int_and_index") {
            if let OperandNode::Array(id) = op {
                let idx = match st.stack.pop() {
                    Some(e) => e,
                    None => return Some(None),
                };
                let access = array_access(ident(cat_num("array_", *id as i64)), idx.clone());
                st.stack.push(access);
                st.stack.push(idx);
            }
            return Some(None);
        }
        if chars_eq(cmd, "pop_int_local") || chars_eq(cmd, "pop_string_local") || chars_eq(
            cmd,
            "pop_long_local",
        ) {
            if let Some(stmt) = self.recover_stacked_assignment(st, index) {
                return Some(Some(stmt));
            }
            if let OperandNode::Local(idx) = op {
                let value = pop_or_unknown(&mut st.stack);
                let (prefix, var_type) = local_type(cmd);
                let p = cat(prefix, "_");
                let name = indexed_name(p.as_str(), *idx);
                let contains_multi_result = is_multi_result_access_value(&value) || any_multi_result(
                    &st.stack,
                    0,
                );
                if st.stack.len() > 0 && !contains_multi_result {
                    return Some(Some(preserve_stack_before_assignment(&mut st.stack, name, value)));
                }
                return Some(
                    Some(RecoveredStmt::Assignment { target: name, value, var_type: string_from(var_type) }),
                );
            }
            return Some(None);
        }
        if chars_eq(cmd, "pop_var") {
            if let OperandNode::VarRef(vr) = op {
                let value = pop_or_unknown(&mut st.stack);
                let name = match &vr.name {
                    Some(n) => n.clone(),
                    None => {
                        let mut t = string_from("VARS.get(");
                        push_u64(&mut t, vr.domain.id() as u64);
                        push_str(&mut t, " * 1000000 + ");
                        push_u64(&mut t, vr.id.0 as u64);
                        push_str(&mut t, ")");
                        t
                    },
                };
                if should_preserve_stack_before_assignment_value(&st.stack, &value) {
                    return Some(Some(preserve_stack_before_assignment(&mut st.stack, name, value)));
                }
                return Some(
                    Some(RecoveredStmt::Assignment { target: name, value, var_type: string_from("number") }),
                );
            }
            return Some(None);
        }
        if chars_eq(cmd, "pop_int_discard") || chars_eq(cmd, "pop_string_discard") || chars_eq(
            cmd,
            "pop_long_discard",
        ) {
            let value = match st.stack.pop() {
                Some(e) => e,
                None => discard_call(cmd),
            };
            let value = if is_pop_call_expr(&value) {
                discard_call(cmd)
            } else {
                value
            };
            return Some(Some(RecoveredStmt::Expression(value)));
        }
        let leave_value = chars_eq(cmd, "pop_array_int_leave_value_on_stack");
        if chars_eq(cmd, "pop_array_int") || chars_eq(cmd, "pop_array_string") || leave_value {
            if let OperandNode::Array(id) = op {
                let value = pop_or_unknown(&mut st.stack);
                let idx = match st.stack.pop() {
                    Some(e) => e,
                    None => num(0),
                };
                let idx_str = if expression_uses_leave_index_array_call(&value, *id, &idx) {
                    string_from("pop()")
                } else {
                    expr_str(&idx)
                };
                let mut target = cat_num("array_", *id as i64);
                push_str(&mut target, "[");
                push_str(&mut target, idx_str.as_str());
                push_str(&mut target, "]");
                if leave_value {
                    st.stack.push(value.clone());
                }
                return Some(
                    Some(RecoveredStmt::Assignment { target, value, var_type: string_from("number") }),
                );
            }
            return Some(None);
        }
        let arith = if chars_eq(cmd, "add") {
            Some(BinaryOp::Add)
        } else if chars_eq(cmd, "sub") {
            Some(BinaryOp::Sub)
        } else if chars_eq(cmd, "multiply") {
            Some(BinaryOp::Mul)
        } else if chars_eq(cmd, "divide") {
            Some(BinaryOp::Div)
        } else if chars_eq(cmd, "modulo") {
            Some(BinaryOp::Mod)
        } else if chars_eq(cmd, "and") {
            Some(BinaryOp::And)
        } else if chars_eq(cmd, "or") {
            Some(BinaryOp::Or)
        } else if chars_eq(cmd, "quickchat_dynamic_command_add") {
            Some(BinaryOp::Sub)
        } else {
            None
        };
        if let Some(bop) = arith {
            let right = pop_or_unknown(&mut st.stack);
            let left = pop_or_unknown(&mut st.stack);
            st.stack.push(
                Expression::BinaryOperation(
                    BinaryOperation { op: bop, left: Box::new(left), right: Box::new(right) },
                ),
            );
            return Some(None);
        }
        if chars_eq(cmd, "compare") {
            let right = pop_or_unknown(&mut st.stack);
            let left = pop_or_unknown(&mut st.stack);
            st.stack.push(call_named(string_from("compare"), vec![left, right]));
            return Some(None);
        }
        if chars_eq(cmd, "lowercase") || chars_eq(cmd, "uppercase") {
            let arg = pop_or_unknown(&mut st.stack);
            st.stack.push(call_named(string_from(cmd_str), vec![arg]));
            return Some(None);
        }
        if chars_eq(cmd, "length") {
            let arg = pop_or_unknown(&mut st.stack);
            st.stack.push(property_of(arg, string_from("length")));
            return Some(None);
        }
        if chars_eq(cmd, "neg") {
            let arg = pop_or_unknown(&mut st.stack);
            st.stack.push(
                Expression::UnaryOperation(UnaryOperation { op: UnaryOp::Neg, operand: Box::new(arg) }),
            );
            return Some(None);
        }
        if chars_eq(cmd, "join_string") {
            if let OperandNode::Count(n) = op {
                if *n > st.stack.len() || *n > MAX_JOIN_STRING_PARTS {
                    st.stack.push(call_named(string_from("concat"), Vec::new()));
                    let mut text = string_from("invalid join_string count ");
                    push_u64(&mut text, *n as u64);
                    return Some(Some(RecoveredStmt::Comment(text)));
                }
                let parts = pop_args(&mut st.stack, *n);
                st.stack.push(call_named(string_from("concat"), parts));
            }
            return Some(None);
        }
        if chars_eq(cmd, "gosub_with_params") {
            if let OperandNode::Script(id) = op {
                return Some(self.recover_gosub(st, index, *id));
            }
            return Some(None);
        }
        None
    }

    /// The value of an integer string constant: the named enum value when
    /// the table has a non-negative key, else the number.
    fn constant_int_expr(&self, v: i32) -> (r: Expression)
        ensures
            ({
                let q = self.enum_value_names.get_spec(v as u64);
                if v >= 0 && q is Some && crate::text::index_of(q->0, '.') < q->0.len() {
                    let k = crate::text::index_of(q->0, '.');
                    r matches Expression::PropertyAccess(p) && (*p.object matches Expression::Identifier(o) && o.name@
                        == q->0.take(k)) && p.property@ == q->0.skip(k + 1)
                } else {
                    r == Expression::NumberLiteral(NumberLiteral { value: v })
                }
            }),
    {
        if v >= 0 {
            if let Some(qualified) = self.enum_value_names.get(v as u64) {
                let q = chars_of(qualified.as_str());
                if let Some((obj, prop)) = crate::text::split_once(&q, '.') {
                    return property_of(ident(string_of(&obj)), string_of(&prop));
                }
            }
        }
        num(v)
    }

    /// A call of script `id`: its arguments by slot width, then pushed,
    /// kept as a statement, or read back through a return.
    fn recover_gosub(&self, st: &mut RecoveryState, index: usize, id: i32) -> (r: Option<RecoveredStmt>)
        requires
            index < self.instructions@.len(),
        ensures
            r matches Some(s) ==> is_plain_stmt(s),
            final(st).skip_count == old(st).skip_count,
    {
        let (target, signature) = match resolve_call_target_signature(
            self.script_catalog,
            self.script_signatures,
            id,
        ) {
            Some(p) => p,
            None => {
                let mut text = string_from("unresolved gosub_with_params target script ");
                push_str(&mut text, crate::text::fmt_i64(id as i64).as_str());
                return Some(RecoveredStmt::Comment(text));
            },
        };
        let args = self.pop_arg_slots(&mut st.stack, signature.total_args());
        let expr = call_named(target.export_name.clone(), args);
        if str_eq(signature.return_type.as_str(), "void") {
            return Some(preserve_stack_before_statement(&mut st.stack, expr));
        }
        let len = self.instructions.len();
        if self.next_return_is_branch_target(index) {
            st.return_pop_targets.push(index + 1);
            return Some(RecoveredStmt::Expression(push_call_expr(expr)));
        }
        let total = signature.total_returns();
        let return_count = if total > 1 {
            total
        } else {
            1
        };
        if self.call_result_crosses_branch_target(index, return_count) {
            return Some(materialize_call_result(&mut st.stack, expr));
        }
        st.stack.push(expr);
        None
    }

    /// Whether the next instruction is a `return` that a branch jumps to.
    fn next_return_is_branch_target(&self, index: usize) -> (r: bool)
        requires
            index < self.instructions@.len(),
        ensures
            r == (self.branch_targets@.contains((index + 1) as usize) && index + 1 < self.instructions@.len()
                && self.instructions@[index + 1].command@ == "return"@),
    {
        let len = self.instructions.len();
        let next = index + 1;
        contains_usize(&self.branch_targets, next) && next < self.instructions.len() && str_eq(
            self.instructions[next].command.as_str(),
            "return",
        )
    }

    /// Whether a single call result would still be on the stack when
    /// control reaches a branch target.
    fn call_result_crosses_branch_target(&self, index: usize, return_count: usize) -> (r: bool)
        requires
            index < self.instructions@.len(),
        ensures
            r == (return_count == 1 && crosses_from(
                self.instructions@,
                self.branch_targets@,
                index + 1,
                0,
                self.build,
                *self.script_catalog,
                *self.script_signatures,
                self.tables,
            )),
    {
        if return_count != 1 {
            return false;
        }
        let len = self.instructions.len();
        let mut values_above_call: usize = 0;
        let mut next: usize = index + 1;
        while next < self.instructions.len()
            invariant
                index + 1 <= next,
                return_count == 1,
                crosses_from(
                    self.instructions@,
                    self.branch_targets@,
                    index + 1,
                    0,
                    self.build,
                    *self.script_catalog,
                    *self.script_signatures,
                    self.tables,
                ) == crosses_from(
                    self.instructions@,
                    self.branch_targets@,
                    next as int,
                    values_above_call as int,
                    self.build,
                    *self.script_catalog,
                    *self.script_signatures,
                    self.tables,
                ),
            decreases self.instructions@.len() - next,
        {
            if contains_usize(&self.branch_targets, next) {
                proof {
                    assert(self.branch_targets@.contains((next as int) as usize));
                }
                return true;
            }
            let instruction = &self.instructions[next];
            let cmd = chars_of(instruction.command.as_str());
            let effect = stack_effect(
                &cmd,
                instruction.command.as_str(),
                &instruction.operand,
                self.build,
                self.script_catalog,
                self.script_signatures,
                &self.tables,
            );
            if effect.pops > values_above_call {
                return false;
            }
            values_above_call = (values_above_call - effect.pops).saturating_add(effect.pushes);
            next = next + 1;
        }
        false
    }

    /// Arguments filling `count` stack slots, in stack order; a call of a
    /// script that returns several values fills as many slots.
    fn pop_arg_slots(&self, stack: &mut Vec<Expression>, count: usize) -> (r: Vec<Expression>)
        requires
            count <= 65535 * 3,
    {
        let mut args: Vec<Expression> = Vec::new();
        let mut slots: usize = 0;
        while slots < count
            invariant
                count <= 65535 * 3,
                slots <= 65535 * 6,
            decreases 65535 * 6 - slots,
        {
            let e = pop_or_unknown(stack);
            let w = self.expression_stack_width(&e);
            slots = slots + w;
            args.insert(0, e);
        }
        args
    }

    /// The stack slots `expr` fills: the return count of a script call,
    /// else one.
    fn expression_stack_width(&self, expr: &Expression) -> (r: usize)
        ensures
            1 <= r <= 65535 * 3,
            r == (match *expr {
                Expression::Call(c) => match *c.callee {
                    Expression::Identifier(i) => match export_signature_of(
                        Some((self.script_catalog, self.script_signatures)),
                        i.name@,
                    ) {
                        Some(sig) => {
                            let n = sig.return_count_int + sig.return_count_obj + sig.return_count_long;
                            if n > 1 {
                                n
                            } else {
                                1
                            }
                        },
                        None => 1,
                    },
                    _ => 1,
                },
                _ => 1,
            }),
    {
        let name = match expr {
            Expression::Call(c) => match &*c.callee {
                Expression::Identifier(i) => i.name.as_str(),
                _ => return 1,
            },
            _ => return 1,
        };
        let metadata = match self.script_catalog.resolve_export_name(name) {
            Some(m) => m,
            None => return 1,
        };
        let signature = match self.script_signatures.get(metadata.packed_id) {
            Some(s) => s,
            None => &metadata.signature,
        };
        let n = signature.total_returns();
        if n > 1 {
            n
        } else {
            1
        }
    }

    /// Consecutive stores that take the top values at once become one
    /// `stackassign_<n>("t1", .., v1, ..)` statement; the stores after the
    /// first are then skipped.
    fn recover_stacked_assignment(&self, st: &mut RecoveryState, index: usize) -> (r: Option<RecoveredStmt>)
        requires
            index < self.instructions@.len(),
            old(st).skip_count == 0,
        ensures
            r matches Some(s) ==> s is Expression,
            skip_ok(self.instructions@, index + 1, final(st).skip_count as int),
    {
        let mut targets: Vec<String> = Vec::new();
        let mut j: usize = index;
        while j < self.instructions.len()
            invariant
                index <= j <= self.instructions@.len(),
                targets@.len() == j - index,
                forall|k: int| index <= k < j ==> is_stacked_pop_cmd(#[trigger] self.instructions@[k].command@),
            decreases self.instructions@.len() - j,
        {
            let t = match stacked_pop_target(&self.instructions[j]) {
                Some(t) => t,
                None => break,
            };
            targets.push(t);
            j = j + 1;
            if targets.len() >= st.stack.len() {
                break;
            }
        }
        let n = targets.len();
        if n < 2 || st.stack.len() < n {
            return None;
        }
        let split = st.stack.len() - n;
        if any_multi_result(&st.stack, split) {
            return None;
        }
        let mut arguments: Vec<Expression> = Vec::new();
        let mut k: usize = 0;
        while k < n
            invariant
                k <= n,
                n == targets@.len(),
            decreases n - k,
        {
            arguments.push(str_lit(targets[k].clone()));
            k = k + 1;
        }
        let values = pop_args(&mut st.stack, n);
        let mut m: usize = 0;
        while m < values.len()
            decreases values@.len() - m,
        {
            arguments.push(values[m].clone());
            m = m + 1;
        }
        st.skip_count = n - 1;
        Some(RecoveredStmt::Expression(call_named(indexed_name("stackassign_", n), arguments)))
    }
}

/// `array[index]`.
fn array_access(array: Expression, index: Expression) -> (r: Expression)
    ensures
        r is ArrayAccess,
{
    Expression::ArrayAccess(ArrayAccess { array: Box::new(array), index: Box::new(index) })
}

/// `object.property`.
fn property_of(object: Expression, property: String) -> (r: Expression)
    ensures
        r is PropertyAccess,
        r == Expression::PropertyAccess(PropertyAccess { object: Box::new(object), property }),
{
    Expression::PropertyAccess(PropertyAccess { object: Box::new(object), property })
}


/// A call of the command `cmd` with its sanitized name.
fn command_call(cmd_str: &str, arguments: Vec<Expression>) -> (r: Expression)
    ensures
        r is Call,
{
    call_named(sanitize_command(cmd_str), arguments)
}

/// `UI.<method>(arguments)`.
fn ui_call_expr(method: &str, arguments: Vec<Expression>) -> (r: Expression)
    ensures
        r is Call,
{
    call_named(cat("UI.", method), arguments)
}

/// Pushes `call.<p>` for each property, in order.
fn push_named_results(stack: &mut Vec<Expression>, call: &Expression, properties: &[&str])
    ensures
        final(stack)@.len() == old(stack)@.len() + properties@.len(),
{
    let mut i: usize = 0;
    while i < properties.len()
        invariant
            i <= properties@.len(),
            stack@.len() == old(stack)@.len() + i,
        decreases properties@.len() - i,
    {
        stack.push(property_of(call.clone(), string_from(properties[i])));
        i = i + 1;
    }
}

/// Pushes `expr[0]`, .., `expr[count - 1]`.
fn push_multi_slot_expr(stack: &mut Vec<Expression>, expr: &Expression, count: usize)
    requires
        count <= 1024,
    ensures
        final(stack)@.len() == old(stack)@.len() + count,
{
    let mut i: usize = 0;
    while i < count
        invariant
            i <= count <= 1024,
            stack@.len() == old(stack)@.len() + i,
        decreases count - i,
    {
        stack.push(array_access(expr.clone(), num(i as i32)));
        i = i + 1;
    }
}

impl<'a> ExprRecovery<'a> {
    /// Commands whose several results are pushed as named properties or
    /// indices of one call, UI getters, and argument-less commands kept as
    /// statements; `None` when `cmd` is none of them.
    fn process_results(&self, stack: &mut Vec<Expression>, cmd: &[char], cmd_str: &str) -> (r: Option<
        Option<RecoveredStmt>,
    >)
        requires
            cmd_str@ == cmd@,
        ensures
            r matches Some(Some(s)) ==> is_plain_stmt(s),
    {
        if chars_eq(cmd, "get_mousebuttons") {
            let call = command_call(cmd_str, Vec::new());
            push_named_results(stack, &call, &["primary", "middle", "secondary"]);
            return Some(None);
        }
        if chars_eq(cmd, "get_active_minimenu_entry") || chars_eq(cmd, "get_second_minimenu_entry") {
            let call = command_call(cmd_str, Vec::new());
            push_named_results(stack, &call, &["entityType", "op", "opBase", "questIconSuffix"]);
            return Some(None);
        }
        if chars_eq(cmd, "get_minimenu_length") {
            let call = command_call(cmd_str, Vec::new());
            push_multi_slot_expr(stack, &call, 2);
            return Some(None);
        }
        if chars_eq(cmd, "get_minimenu_target") {
            let call = command_call(cmd_str, Vec::new());
            push_multi_slot_expr(stack, &call, 3);
            return Some(None);
        }
        if chars_eq(cmd, "unknown_command_28") {
            let slot = pop_or_unknown(stack);
            let call = command_call(cmd_str, vec![slot]);
            push_multi_slot_expr(stack, &call, 2);
            return Some(None);
        }
        if chars_eq(cmd, "unknown_command_29") {
            let row = pop_or_unknown(stack);
            let menu = pop_or_unknown(stack);
            let call = command_call(cmd_str, vec![menu, row]);
            push_multi_slot_expr(stack, &call, 3);
            return Some(None);
        }
        if chars_eq(cmd, "worldlist_start") || chars_eq(cmd, "worldlist_next") {
            let call = command_call(cmd_str, Vec::new());
            push_named_results(
                stack,
                &call,
                &["id", "flags", "activity", "countryId", "countryName", "players", "ping", "host"],
            );
            return Some(None);
        }
        if chars_eq(cmd, "worldlist_specific") {
            let world = pop_or_unknown(stack);
            let call = command_call(cmd_str, vec![world]);
            push_named_results(
                stack,
                &call,
                &["flags", "activity", "countryId", "countryName", "players", "ping", "host"],
            );
            return Some(None);
        }
        if chars_eq(cmd, "pushCanvasSize") || chars_eq(cmd, "viewport_geteffectivesize") {
            let call = command_call(cmd_str, Vec::new());
            push_named_results(stack, &call, &["width", "height"]);
            return Some(None);
        }
        if chars_eq(cmd, "pushZeroInsets") || chars_eq(cmd, "window_getinsets") {
            let call = command_call(cmd_str, Vec::new());
            push_multi_slot_expr(stack, &call, 4);
            return Some(None);
        }
        if chars_eq(cmd, "pushFontMetrics") {
            let font = pop_or_unknown(stack);
            let call = command_call(cmd_str, vec![font]);
            push_multi_slot_expr(stack, &call, 5);
            return Some(None);
        }
        if chars_eq(cmd, "viewport_getzoom") {
            let call = command_call(cmd_str, Vec::new());
            push_named_results(stack, &call, &["min", "max"]);
            return Some(None);
        }
        if chars_eq(cmd, "viewport_getfov") {
            let call = command_call(cmd_str, Vec::new());
            push_named_results(stack, &call, &["max", "min"]);
            return Some(None);
        }
        if chars_eq(cmd, "store_lookup") {
            let currency = pop_or_unknown(stack);
            let position = pop_or_unknown(stack);
            let call = command_call(cmd_str, vec![position, currency]);
            push_multi_slot_expr(stack, &call, 13);
            return Some(None);
        }
        if chars_eq(cmd, "fullscreen_getmode") {
            let index = pop_or_unknown(stack);
            let call = command_call(cmd_str, vec![index]);
            push_named_results(stack, &call, &["width", "height"]);
            return Some(None);
        }
        if chars_eq(cmd, "cc_getcharposatindex") {
            let index = pop_or_unknown(stack);
            let call = command_call(cmd_str, vec![index]);
            push_multi_slot_expr(stack, &call, 2);
            return Some(None);
        }
        if chars_eq(cmd, "if_getcharposatindex") {
            let index = pop_or_unknown(stack);
            let component = pop_or_unknown(stack);
            let call = command_call(cmd_str, vec![component, index]);
            push_multi_slot_expr(stack, &call, 2);
            return Some(None);
        }
        if chars_eq(cmd, "if_hassub") || chars_eq(cmd, "if_getnextsubid") {
            let component = pop_or_unknown(stack);
            let method = if chars_eq(cmd, "if_hassub") {
                "HasSub"
            } else {
                "GetNextSubid"
            };
            stack.push(ui_call_expr(method, vec![component]));
            return Some(None);
        }
        if chars_eq(cmd, "if_hassubmodal") || chars_eq(cmd, "if_hassuboverlay") {
            let second = pop_or_unknown(stack);
            let component = pop_or_unknown(stack);
            let method = if chars_eq(cmd, "if_hassubmodal") {
                "HasSubmodal"
            } else {
                "HasSuboverlay"
            };
            stack.push(ui_call_expr(method, vec![component, second]));
            return Some(None);
        }
        if chars_eq(cmd, "if_get_gamescreen") {
            stack.push(ui_call_expr("GetGamescreen", Vec::new()));
            return Some(None);
        }
        if chars_eq(cmd, "defaultminimenu") || chars_eq(cmd, "minimenu_close") || chars_eq(
            cmd,
            "force_interface_drag",
        ) || chars_eq(cmd, "cancel_interface_drag") || chars_eq(cmd, "targetmode_cancel") {
            return Some(Some(RecoveredStmt::Expression(command_call(cmd_str, Vec::new()))));
        }
        None
    }
}

/// The component setters: the `cc_` command, its `UI.` method and its
/// argument count.
pub open spec fn ui_setter_table() -> Seq<(Seq<char>, Seq<char>, usize)> {
    seq![
        ("cc_settext"@, "UI.setText"@, 1),
        ("cc_setgraphic"@, "UI.setGraphic"@, 1),
        ("cc_sethide"@, "UI.setHide"@, 1),
        ("cc_setcolour"@, "UI.setColour"@, 1),
        ("cc_setfill"@, "UI.setFill"@, 1),
        ("cc_settrans"@, "UI.setTrans"@, 1),
        ("cc_setlinewid"@, "UI.setLineWid"@, 1),
        ("cc_setmodel"@, "UI.setModel"@, 1),
        ("cc_setscrollpos"@, "UI.setScrollPos"@, 2),
        ("cc_setscrollsize"@, "UI.setScrollSize"@, 2),
        ("cc_setaspect"@, "UI.setAspect"@, 2),
        ("cc_setposition"@, "UI.setPosition"@, 4),
        ("cc_setsize"@, "UI.setSize"@, 4),
        ("cc_setmodelorigin"@, "UI.setModelOrigin"@, 2),
        ("cc_setmodelangle"@, "UI.setModelAngle"@, 6),
        ("cc_setmodelzoom"@, "UI.setModelZoom"@, 1),
        ("cc_setmodelorthog"@, "UI.setModelOrthog"@, 1),
        ("cc_setmodeltint"@, "UI.setModelTint"@, 4),
        ("cc_setmodellighting"@, "UI.setModelLighting"@, 10),
        ("cc_resetmodellighting"@, "UI.resetModelLighting"@, 0),
        ("cc_settextfont"@, "UI.setTextFont"@, 1),
        ("cc_settextalign"@, "UI.setTextAlign"@, 3),
        ("cc_settextshadow"@, "UI.setTextShadow"@, 1),
        ("cc_settextantimacro"@, "UI.setTextAntiMacro"@, 1),
        ("cc_setoutline"@, "UI.setOutline"@, 1),
        ("cc_setgraphicshadow"@, "UI.setGraphicShadow"@, 1),
        ("cc_setclickmask"@, "UI.setClickMask"@, 1),
        ("cc_setheld"@, "UI.setHeld"@, 1),
        ("cc_setfontmono"@, "UI.setFontMono"@, 1),
        ("cc_setparam"@, "UI.setParam"@, 2),
        ("cc_setparam_int"@, "UI.setParamInt"@, 2),
        ("cc_setparam_string"@, "UI.setParamString"@, 2)
    ]
}

/// The method and argument count of the first row for `c`.
pub open spec fn setter_of(t: Seq<(Seq<char>, Seq<char>, usize)>, c: Seq<char>) -> Option<(Seq<char>, usize)>
    decreases t.len(),
{
    if t.len() == 0 {
        None
    } else if t[0].0 == c {
        Some((t[0].1, t[0].2))
    } else {
        setter_of(t.drop_first(), c)
    }
}

/// The component setters: their `UI.` method and argument count.
fn ui_setter(cmd: &[char]) -> (r: Option<(&'static str, usize)>)
    ensures
        r matches Some((_, n)) ==> n <= 10,
        match setter_of(ui_setter_table(), cmd@) {
            Some((m, n)) => r matches Some((x, k)) && x@ == m && k == n,
            None => r is None,
        },
{
    let t: Vec<(&'static str, &'static str, usize)> = vec![
        ("cc_settext", "UI.setText", 1),
        ("cc_setgraphic", "UI.setGraphic", 1),
        ("cc_sethide", "UI.setHide", 1),
        ("cc_setcolour", "UI.setColour", 1),
        ("cc_setfill", "UI.setFill", 1),
        ("cc_settrans", "UI.setTrans", 1),
        ("cc_setlinewid", "UI.setLineWid", 1),
        ("cc_setmodel", "UI.setModel", 1),
        ("cc_setscrollpos", "UI.setScrollPos", 2),
        ("cc_setscrollsize", "UI.setScrollSize", 2),
        ("cc_setaspect", "UI.setAspect", 2),
        ("cc_setposition", "UI.setPosition", 4),
        ("cc_setsize", "UI.setSize", 4),
        ("cc_setmodelorigin", "UI.setModelOrigin", 2),
        ("cc_setmodelangle", "UI.setModelAngle", 6),
        ("cc_setmodelzoom", "UI.setModelZoom", 1),
        ("cc_setmodelorthog", "UI.setModelOrthog", 1),
        ("cc_setmodeltint", "UI.setModelTint", 4),
        ("cc_setmodellighting", "UI.setModelLighting", 10),
        ("cc_resetmodellighting", "UI.resetModelLighting", 0),
        ("cc_settextfont", "UI.setTextFont", 1),
        ("cc_settextalign", "UI.setTextAlign", 3),
        ("cc_settextshadow", "UI.setTextShadow", 1),
        ("cc_settextantimacro", "UI.setTextAntiMacro", 1),
        ("cc_setoutline", "UI.setOutline", 1),
        ("cc_setgraphicshadow", "UI.setGraphicShadow", 1),
        ("cc_setclickmask", "UI.setClickMask", 1),
        ("cc_setheld", "UI.setHeld", 1),
        ("cc_setfontmono", "UI.setFontMono", 1),
        ("cc_setparam", "UI.setParam", 2),
        ("cc_setparam_int", "UI.setParamInt", 2),
        ("cc_setparam_string", "UI.setParamString", 2)
    ];
    let ghost tv = t@.map_values(|e: (&'static str, &'static str, usize)| (e.0@, e.1@, e.2));
    proof {
        assert(tv =~= ui_setter_table());
        assert(tv.skip(0) =~= tv);
    }
    let mut i: usize = 0;
    while i < t.len()
        invariant
            i <= t@.len(),
            tv == t@.map_values(|e: (&'static str, &'static str, usize)| (e.0@, e.1@, e.2)),
            tv == ui_setter_table(),
            forall|k: int| 0 <= k < t@.len() ==> t@[k].2 <= 10,
            setter_of(tv, cmd@) == setter_of(tv.skip(i as int), cmd@),
        decreases t.len() - i,
    {
        proof {
            assert(tv.skip(i as int).drop_first() =~= tv.skip(i + 1));
            assert(tv.skip(i as int)[0] == tv[i as int]);
        }
        if chars_eq(cmd, t[i].0) {
            return Some((t[i].1, t[i].2));
        }
        i = i + 1;
    }
    None
}

/// `UI.<name>(args..)` plus the operand's mode, as a statement.
fn ui_statement(stack: &mut Vec<Expression>, name: &str, arguments: Vec<Expression>, op: &OperandNode) -> (r: RecoveredStmt)
    ensures
        r is Expression,
        final(stack)@ == old(stack)@,
        r matches RecoveredStmt::Expression(Expression::Call(c)) && (*c.callee matches Expression::Identifier(i)
            && match *op {
            OperandNode::Byte(m) => if m != 0 {
                i.name@ == name@ + "WithMode"@ && c.arguments@ == arguments@.push(
                    Expression::NumberLiteral(NumberLiteral { value: m as i32 }),
                )
            } else {
                i.name@ == name@ && c.arguments@ == arguments@
            },
            _ => i.name@ == name@ && c.arguments@ == arguments@,
        }),
{
    let mut name = string_from(name);
    let mut arguments = arguments;
    append_ui_operand_mode(&mut name, &mut arguments, op);
    RecoveredStmt::Expression(call_named(name, arguments))
}

/// The operand's mode appended to a fixed argument list.
fn with_mode(mut arguments: Vec<Expression>, op: &OperandNode) -> (r: Vec<Expression>) {
    if let OperandNode::Byte(mode) = op {
        if *mode != 0 {
            arguments.push(num(*mode as i32));
        }
    }
    arguments
}

impl<'a> ExprRecovery<'a> {
    /// Interface commands: script hooks, script queues, component
    /// creation, lookup, ordering and the component setters; `None` when
    /// `cmd` is none of them.
    fn process_ui(&self, stack: &mut Vec<Expression>, cmd: &[char], op: &OperandNode) -> (r: Option<Option<RecoveredStmt>>)
        ensures
            r matches Some(Some(s)) ==> is_plain_stmt(s),
    {
        if is_interface_hook_opcode(cmd) {
            let has_component = starts_with(cmd, "if_");
            let component = if has_component {
                Some(pop_or_unknown(stack))
            } else {
                None
            };
            let descriptor = pop_or_unknown(stack);
            let callback = self.recover_callback_literal(stack, cmd, &descriptor);
            let mut arguments: Vec<Expression> = Vec::new();
            match callback {
                Some(c) => arguments.push(c),
                None => arguments.push(descriptor),
            }
            if let Some(c) = component {
                arguments.push(c);
            }
            let mut name = string_from("UI.");
            let tail = camel_tail(cmd);
            push_str(&mut name, tail.as_str());
            append_ui_operand_mode(&mut name, &mut arguments, op);
            let call = call_named(name, arguments);
            return Some(Some(preserve_stack_before_statement(stack, call)));
        }
        if chars_eq(cmd, "cc_scriptqueue_add") || chars_eq(cmd, "if_scriptqueue_add") {
            let has_component = chars_eq(cmd, "if_scriptqueue_add");
            let component = if has_component {
                Some(pop_or_unknown(stack))
            } else {
                None
            };
            let descriptor = pop_or_unknown(stack);
            let callback = self.recover_callback_literal(stack, cmd, &descriptor);
            let delay = pop_or_unknown(stack);
            let mut arguments: Vec<Expression> = Vec::new();
            arguments.push(delay);
            match callback {
                Some(c) => arguments.push(c),
                None => arguments.push(descriptor),
            }
            if let Some(c) = component {
                arguments.push(c);
            }
            let mut name = string_from("UI.ScriptqueueAdd");
            append_ui_operand_mode(&mut name, &mut arguments, op);
            stack.push(call_named(name, arguments));
            return Some(None);
        }
        if chars_eq(cmd, "cc_create") {
            let child_id = pop_or_unknown(stack);
            let component_type = pop_or_unknown(stack);
            let parent = pop_or_unknown(stack);
            let arguments = with_mode(vec![parent, component_type, child_id], op);
            return Some(Some(RecoveredStmt::Expression(call_named(string_from("UI.create"), arguments))));
        }
        if chars_eq(cmd, "cc_delete") {
            return Some(Some(ui_statement(stack, "UI.delete", Vec::new(), op)));
        }
        if chars_eq(cmd, "cc_deleteall") {
            let component = pop_or_unknown(stack);
            return Some(Some(ui_statement(stack, "UI.deleteAll", vec![component], op)));
        }
        if chars_eq(cmd, "cc_find") {
            let child_id = pop_or_unknown(stack);
            let component = pop_or_unknown(stack);
            let arguments = with_mode(vec![component, child_id], op);
            stack.push(call_named(string_from("UI.find"), arguments));
            return Some(None);
        }
        if chars_eq(cmd, "if_find") {
            let component = pop_or_unknown(stack);
            let call = match op {
                OperandNode::Byte(mode) if *mode != 0 => call_named(
                    string_from("UI.findInterface"),
                    vec![component, num(*mode as i32)],
                ),
                _ => call_named(string_from("UI.find"), vec![component]),
            };
            stack.push(call);
            return Some(None);
        }
        if chars_eq(cmd, "cc_sendtofront") {
            return Some(Some(ui_statement(stack, "UI.sendToFront", Vec::new(), op)));
        }
        if chars_eq(cmd, "cc_sendtoback") {
            return Some(Some(ui_statement(stack, "UI.sendToBack", Vec::new(), op)));
        }
        if chars_eq(cmd, "if_sendtofront") {
            let component = pop_or_unknown(stack);
            return Some(Some(ui_statement(stack, "UI.sendToFront", vec![component], op)));
        }
        if chars_eq(cmd, "if_sendtoback") {
            let component = pop_or_unknown(stack);
            return Some(Some(ui_statement(stack, "UI.sendToBack", vec![component], op)));
        }
        if chars_eq(cmd, "if_gettext") {
            let id = pop_or_unknown(stack);
            stack.push(call_named(string_from("UI.getText"), vec![id]));
            return Some(None);
        }
        if let Some((name, count)) = ui_setter(cmd) {
            let arguments = pop_args(stack, count);
            return Some(Some(ui_statement(stack, name, arguments, op)));
        }
        None
    }

    /// The script hook a descriptor stands for: the script, its argument
    /// values (one per descriptor character) and, for a descriptor ending
    /// in `Y`, the watched ids counted by the value on top. `None` when the
    /// descriptor is not a string or the watcher count is not a literal
    /// that the stack can supply.
    fn recover_callback_literal(&self, stack: &mut Vec<Expression>, cmd: &[char], descriptor: &Expression) -> (r: Option<Expression>)
        ensures
            r matches Some(e) ==> e is CallbackLiteral,
    {
        let raw_descriptor = match descriptor {
            Expression::StringLiteral(d) => d.value.clone(),
            _ => return None,
        };
        let chars = chars_of(raw_descriptor.as_str());
        let n = chars.len();
        let mut sig_len = n;
        let mut watchers: Vec<String> = Vec::new();
        if n > 0 && chars[n - 1] == 'Y' {
            sig_len = n - 1;
            let len = stack.len();
            if len == 0 {
                return None;
            }
            let count = match literal_or_enum_i32(&stack[len - 1], self.enum_value_names) {
                Some(v) => {
                    if v < 0 {
                        return None;
                    }
                    v as usize
                },
                None => return None,
            };
            if count >= len || count > MAX_CALLBACK_WATCHERS {
                return None;
            }
            stack.pop();
            let values = pop_args(stack, count);
            let mut k: usize = 0;
            while k < values.len()
                decreases values@.len() - k,
            {
                watchers.push(hook_watcher_name(cmd, &values[k], self.var_names));
                k = k + 1;
            }
        }
        let arguments = pop_args(stack, sig_len);
        let script = pop_or_unknown(stack);
        let script_id = literal_i32(&script);
        Some(
            Expression::CallbackLiteral(
                CallbackLiteral {
                    script: callback_script_name(&script, self.script_catalog),
                    script_id,
                    raw_descriptor,
                    arguments,
                    watchers,
                },
            ),
        )
    }
}

/// Commands with no dedicated recovery: UI getters and setters by their
/// stack effect, unknown pushes and pops, `define_array`, and calls of any
/// other command.
fn process_default(
    stack: &mut Vec<Expression>,
    cmd: &[char],
    cmd_str: &str,
    op: &OperandNode,
    effect: &StackEffect,
) -> (r: Option<RecoveredStmt>)
    requires
        cmd_str@ == cmd@,
    ensures
        r matches Some(s) ==> is_plain_stmt(s),
{
    proof {
        reveal_strlit("if_");
        reveal_strlit("cc_");
    }
    match categorize(cmd) {
        OpcodeCategory::CC | OpcodeCategory::IF => {
            let mut args = pop_args(stack, effect.pops);
            let mut name = string_from("UI.");
            let tail = camel_tail(cmd);
            push_str(&mut name, tail.as_str());
            append_ui_operand_mode(&mut name, &mut args, op);
            let call = call_named(name, args);
            if effect.pushes > 0 {
                stack.push(call);
                return None;
            }
            if stack.len() > 0 {
                return Some(preserve_stack_before_statement(stack, call));
            }
            Some(RecoveredStmt::Expression(call))
        },
        OpcodeCategory::Push => {
            stack.push(operand_expr(op));
            None
        },
        OpcodeCategory::Pop => {
            let _ = stack.pop();
            None
        },
        _ => {
            if let OperandNode::Array(id) = op {
                if chars_eq(cmd, "define_array") {
                    let size = pop_or_unknown(stack);
                    return Some(
                        RecoveredStmt::Expression(
                            call_named(cat_num("define_array_", *id as i64), vec![size]),
                        ),
                    );
                }
            }
            let mut args = if effect.pops > 0 {
                pop_args(stack, effect.pops)
            } else {
                Vec::new()
            };
            let mut name = sanitize_command(cmd_str);
            append_ui_operand_mode(&mut name, &mut args, op);
            let call = call_named(name, args);
            if effect.pushes > 0 {
                let call = if effect.pops == 0 && should_preserve_stack_before_value(cmd) {
                    preserve_stack_before_value(stack, call)
                } else {
                    call
                };
                stack.push(call);
                return None;
            }
            if should_preserve_stack_before_statement(cmd) {
                return Some(preserve_stack_before_statement(stack, call));
            }
            Some(RecoveredStmt::Expression(call))
        },
    }
}


// ---------------------------------------------------------------------------
// Return types from recovered statements
// ---------------------------------------------------------------------------

/// The stack a returned value lives on.
#[derive(Debug, Clone, Copy, PartialEq, Eq, Structural)]
pub enum ReturnValueKind {
    Int,
    Object,
    Long,
}

/// Some statement returns a value.
pub open spec fn has_value_return(stmts: Seq<Option<RecoveredStmt>>) -> bool {
    exists|i: int| 0 <= i < stmts.len() && (#[trigger] stmts[i] matches Some(RecoveredStmt::Return(Some(_))))
}

/// Some statement returns without a value.
pub open spec fn has_void_return(stmts: Seq<Option<RecoveredStmt>>) -> bool {
    exists|i: int| 0 <= i < stmts.len() && #[trigger] stmts[i] == Some(RecoveredStmt::Return(None))
}

/// The type name of a value kind, with `| void` when some path returns
/// nothing.
pub open spec fn return_type_label(k: ReturnValueKind, or_void: bool) -> Seq<char> {
    match k {
        ReturnValueKind::Int => if or_void {
            "number | void"@
        } else {
            "number"@
        },
        ReturnValueKind::Object => if or_void {
            "string | void"@
        } else {
            "string"@
        },
        ReturnValueKind::Long => if or_void {
            "bigint | void"@
        } else {
            "bigint"@
        },
    }
}

/// The signature of the first script exported as `name`: the given one,
/// else the catalog's; none without a catalog.
pub open spec fn export_signature_of(ctx: Option<(&ScriptCatalog, &SignatureMap)>, name: Seq<char>) -> Option<
    ScriptSignature,
> {
    match ctx {
        Some((c, sg)) => {
            let i = crate::transpile::catalog::export_index(c.entries@, name);
            if i < c.entries@.len() {
                match sg.get_spec(c.entries@[i].packed_id) {
                    Some(t) => Some(t),
                    None => Some(c.entries@[i].signature),
                }
            } else {
                None
            }
        },
        None => None,
    }
}

/// The signature of the script exported as `name`: the given one, else
/// the catalog's.
fn export_signature<'b>(ctx: Option<(&'b ScriptCatalog, &'b SignatureMap)>, name: &str) -> (r: Option<
    &'b ScriptSignature,
>)
    ensures
        match export_signature_of(ctx, name@) {
            Some(t) => r matches Some(x) && *x == t,
            None => r is None,
        },
{
    let (catalog, signatures) = match ctx {
        Some(c) => c,
        None => return None,
    };
    let metadata = match catalog.resolve_export_name(name) {
        Some(m) => m,
        None => return None,
    };
    match signatures.get(metadata.packed_id) {
        Some(s) => Some(s),
        None => Some(&metadata.signature),
    }
}

/// The kind of a local or argument by its name prefix.
pub open spec fn kind_of_name(name: Seq<char>) -> ReturnValueKind {
    if "local_obj_"@.is_prefix_of(name) || "arg_obj_"@.is_prefix_of(name) {
        ReturnValueKind::Object
    } else if "local_long_"@.is_prefix_of(name) || "arg_long_"@.is_prefix_of(name) {
        ReturnValueKind::Long
    } else {
        ReturnValueKind::Int
    }
}

/// The kind of a local or argument by its name prefix.
fn kind_from_identifier(name: &[char]) -> (r: ReturnValueKind)
    ensures
        r == kind_of_name(name@),
{
    if starts_with(name, "local_obj_") || starts_with(name, "arg_obj_") {
        ReturnValueKind::Object
    } else if starts_with(name, "local_long_") || starts_with(name, "arg_long_") {
        ReturnValueKind::Long
    } else {
        ReturnValueKind::Int
    }
}

/// Whether one `|`-separated part of `v`, trimmed, is `ty`.
pub open spec fn type_parts_contain(v: Seq<char>, ty: Seq<char>) -> bool {
    exists|j: int|
        0 <= j < crate::transpile::effects::split_at_char(v, '|').len() && crate::text::trim(
            #[trigger] crate::transpile::effects::split_at_char(v, '|')[j],
        ) == ty
}

/// Whether one `|`-separated part of `value`, trimmed, is `ty`.
fn return_type_contains(value: &str, ty: &str) -> (r: bool)
    ensures
        r == type_parts_contain(value@, ty@),
{
    let v = chars_of(value);
    let parts = crate::transpile::effects::split_chars(&v, '|');
    let ghost ps = crate::transpile::effects::split_at_char(value@, '|');
    let mut i: usize = 0;
    while i < parts.len()
        invariant
            i <= parts@.len(),
            parts.deep_view() == ps,
            ps == crate::transpile::effects::split_at_char(value@, '|'),
            forall|j: int| 0 <= j < i ==> crate::text::trim(#[trigger] ps[j]) != ty@,
        decreases parts@.len() - i,
    {
        proof {
            assert(parts.deep_view()[i as int] == parts@[i as int]@);
        }
        let t = crate::text::trim_chars(&parts[i]);
        if chars_eq(&t, ty) {
            return true;
        }
        i = i + 1;
    }
    false
}

/// The kind a declared return type names, if any.
pub open spec fn kind_of_type_name(value: Seq<char>) -> Option<ReturnValueKind> {
    if type_parts_contain(value, "string"@) {
        Some(ReturnValueKind::Object)
    } else if type_parts_contain(value, "bigint"@) {
        Some(ReturnValueKind::Long)
    } else if type_parts_contain(value, "number"@) || type_parts_contain(value, "boolean"@) {
        Some(ReturnValueKind::Int)
    } else {
        None
    }
}

/// The kind a declared return type names, if any.
fn kind_from_return_type_name(value: &str) -> (r: Option<ReturnValueKind>)
    ensures
        r == kind_of_type_name(value@),
{
    if return_type_contains(value, "string") {
        Some(ReturnValueKind::Object)
    } else if return_type_contains(value, "bigint") {
        Some(ReturnValueKind::Long)
    } else if return_type_contains(value, "number") || return_type_contains(value, "boolean") {
        Some(ReturnValueKind::Int)
    } else {
        None
    }
}

/// Whether `expr` calls a known script declared `void`.
pub open spec fn is_void_call(expr: Expression, ctx: Option<(&ScriptCatalog, &SignatureMap)>) -> bool {
    expr matches Expression::Call(c) && (*c.callee matches Expression::Identifier(i) && (export_signature_of(
        ctx,
        i.name@,
    ) matches Some(s) && crate::text::trim(s.return_type@) == "void"@))
}

/// Whether `expr` calls a known script declared `void`.
fn is_void_script_call(expr: &Expression, ctx: Option<(&ScriptCatalog, &SignatureMap)>) -> (r: bool)
    ensures
        r == is_void_call(*expr, ctx),
{
    let name = match expr {
        Expression::Call(c) => match &*c.callee {
            Expression::Identifier(i) => i.name.as_str(),
            _ => return false,
        },
        _ => return false,
    };
    match export_signature(ctx, name) {
        Some(sig) => {
            let t = chars_of(sig.return_type.as_str());
            let tt = crate::text::trim_chars(&t);
            chars_eq(&tt, "void")
        },
        None => false,
    }
}

/// The string-producing commands every caller counts as strings.
pub open spec fn common_string_command(n: Seq<char>) -> bool {
    n == "append"@ || n == "concat"@ || n == "ocname"@ || n == "tostring"@ || n == "tostringlong"@
}

/// The string-producing commands only recovered code names.
pub open spec fn recovered_string_command(n: Seq<char>) -> bool {
    n == "lowercase"@ || n == "removetags"@ || n == "tostringlocalised"@ || n == "uppercase"@
}

/// The kind of a returned value: literals by their type, locals and
/// arguments by name, `stack(..)` by its non-void values when they agree,
/// script calls by their declared type, string-producing commands as
/// strings, and everything else as an integer.
pub open spec fn infer_kind_of(e: Expression, ctx: Option<(&ScriptCatalog, &SignatureMap)>, all: bool) -> ReturnValueKind
    decreases e, 1nat, 0nat,
{
    match e {
        Expression::BigIntLiteral(_) => ReturnValueKind::Long,
        Expression::StringLiteral(_) => ReturnValueKind::Object,
        Expression::Identifier(i) => kind_of_name(i.name@),
        Expression::Call(c) => match *c.callee {
            Expression::Identifier(i) => if i.name@ == "stack"@ {
                let p = stack_kinds(e, ctx, all, c.arguments@.len());
                match p.0 {
                    Some(f) => if p.1 {
                        f
                    } else {
                        ReturnValueKind::Int
                    },
                    None => ReturnValueKind::Int,
                }
            } else if export_signature_of(ctx, i.name@) matches Some(sig) && kind_of_type_name(sig.return_type@) is Some {
                kind_of_type_name(export_signature_of(ctx, i.name@)->0.return_type@)->0
            } else if common_string_command(i.name@) || (all && recovered_string_command(i.name@)) {
                ReturnValueKind::Object
            } else {
                ReturnValueKind::Int
            },
            _ => ReturnValueKind::Int,
        },
        _ => ReturnValueKind::Int,
    }
}

/// The kind of the first non-void value among the first `k` arguments of
/// the call `e`, and whether all those values have that kind.
pub open spec fn stack_kinds(e: Expression, ctx: Option<(&ScriptCatalog, &SignatureMap)>, all: bool, k: nat) -> (
    Option<ReturnValueKind>,
    bool,
)
    decreases e, 0nat, k,
{
    match e {
        Expression::Call(c) => if k == 0 || k > c.arguments@.len() {
            (None, true)
        } else {
            proof {
                assert(decreases_to!(e => e->Call_0));
                assert(decreases_to!(e->Call_0 => e->Call_0.arguments));
                assert(decreases_to!(c.arguments => c.arguments@));
                assert(decreases_to!(c.arguments@ => c.arguments@[k - 1]));
            }
            let prev = stack_kinds(e, ctx, all, (k - 1) as nat);
            let a = c.arguments@[k - 1];
            if is_void_call(a, ctx) {
                prev
            } else {
                let kd = infer_kind_of(a, ctx, all);
                match prev.0 {
                    Some(f) => (prev.0, prev.1 && f == kd),
                    None => (Some(kd), prev.1),
                }
            }
        },
        _ => (None, true),
    }
}

/// The kind of a returned value: literals by their type, locals and
/// arguments by name, `stack(..)` by its values when they agree, script
/// calls by their declared type, string-producing commands as strings, and
/// everything else as an integer.
pub(crate) fn infer_kind(
    expr: &Expression,
    ctx: Option<(&ScriptCatalog, &SignatureMap)>,
    all_string_commands: bool,
) -> (r: ReturnValueKind)
    ensures
        r == infer_kind_of(*expr, ctx, all_string_commands),
    decreases expr,
{
    match expr {
        Expression::BigIntLiteral(_) => ReturnValueKind::Long,
        Expression::StringLiteral(_) => ReturnValueKind::Object,
        Expression::Identifier(i) => {
            let n = chars_of(i.name.as_str());
            kind_from_identifier(&n)
        },
        Expression::Call(c) => {
            let name = match &*c.callee {
                Expression::Identifier(i) => i.name.as_str(),
                _ => return ReturnValueKind::Int,
            };
            if str_eq(name, "stack") {
                let mut first: Option<ReturnValueKind> = None;
                let mut same = true;
                let mut k: usize = 0;
                while k < c.arguments.len()
                    invariant
                        *expr == Expression::Call(*c),
                        k <= c.arguments@.len(),
                        (first, same) == stack_kinds(*expr, ctx, all_string_commands, k as nat),
                    decreases c.arguments.len() - k,
                {
                    proof {
                        assert(decreases_to!(*expr => expr->Call_0));
                        assert(decreases_to!(expr->Call_0 => expr->Call_0.arguments));
                        assert(decreases_to!(c.arguments => c.arguments@));
                        assert(decreases_to!(c.arguments@ => c.arguments@[k as int]));
                        assert(decreases_to!(expr => c.arguments@[k as int]));
                    }
                    if !is_void_script_call(&c.arguments[k], ctx) {
                        let kind = infer_kind(&c.arguments[k], ctx, all_string_commands);
                        match first {
                            Some(f) => {
                                if f != kind {
                                    same = false;
                                }
                            },
                            None => {
                                first = Some(kind);
                            },
                        }
                    }
                    k = k + 1;
                }
                return match first {
                    Some(f) => if same {
                        f
                    } else {
                        ReturnValueKind::Int
                    },
                    None => ReturnValueKind::Int,
                };
            }
            if let Some(sig) = export_signature(ctx, name) {
                if let Some(kind) = kind_from_return_type_name(sig.return_type.as_str()) {
                    return kind;
                }
            }
            let common = str_eq(name, "append") || str_eq(name, "concat") || str_eq(name, "ocname")
                || str_eq(name, "tostring") || str_eq(name, "tostringlong");
            let recovered_only = str_eq(name, "lowercase") || str_eq(name, "removetags") || str_eq(
                name,
                "tostringlocalised",
            ) || str_eq(name, "uppercase");
            if common || (all_string_commands && recovered_only) {
                ReturnValueKind::Object
            } else {
                ReturnValueKind::Int
            }
        },
        _ => ReturnValueKind::Int,
    }
}

/// `counts` with one more value of kind `kind`, saturating.
pub open spec fn add_kind_of(counts: ScriptReturnCounts, kind: ReturnValueKind) -> ScriptReturnCounts {
    match kind {
        ReturnValueKind::Int => ScriptReturnCounts {
            int: if counts.int == u16::MAX {
                u16::MAX
            } else {
                (counts.int + 1) as u16
            },
            ..counts
        },
        ReturnValueKind::Object => ScriptReturnCounts {
            obj: if counts.obj == u16::MAX {
                u16::MAX
            } else {
                (counts.obj + 1) as u16
            },
            ..counts
        },
        ReturnValueKind::Long => ScriptReturnCounts {
            long: if counts.long == u16::MAX {
                u16::MAX
            } else {
                (counts.long + 1) as u16
            },
            ..counts
        },
    }
}

/// The values the first `k` arguments of the call `e` put on each stack:
/// one per non-void argument, by its kind.
pub open spec fn stack_counts(e: Expression, ctx: Option<(&ScriptCatalog, &SignatureMap)>, k: nat) -> ScriptReturnCounts
    decreases k,
{
    match e {
        Expression::Call(c) => if k == 0 || k > c.arguments@.len() {
            ScriptReturnCounts { int: 0, obj: 0, long: 0 }
        } else {
            let prev = stack_counts(e, ctx, (k - 1) as nat);
            let a = c.arguments@[k - 1];
            if is_void_call(a, ctx) {
                prev
            } else {
                add_kind_of(prev, infer_kind_of(a, ctx, true))
            }
        },
        _ => ScriptReturnCounts { int: 0, obj: 0, long: 0 },
    }
}

/// The values a returned expression puts on each stack: those of a
/// `stack(..)` by its arguments, a script's declared return counts when it
/// declares some, else one value of the expression's kind.
pub open spec fn value_counts_of(e: Expression, ctx: Option<(&ScriptCatalog, &SignatureMap)>) -> ScriptReturnCounts {
    if e matches Expression::Call(c) && (*c.callee matches Expression::Identifier(i) && i.name@ == "stack"@) {
        stack_counts(e, ctx, e->Call_0.arguments@.len())
    } else if e matches Expression::Call(c) && (*c.callee matches Expression::Identifier(i) && (export_signature_of(
        ctx,
        i.name@,
    ) matches Some(sig) && sig.return_count_int + sig.return_count_obj + sig.return_count_long > 0)) {
        let sig = export_signature_of(ctx, e->Call_0.callee->Identifier_0.name@)->0;
        ScriptReturnCounts { int: sig.return_count_int, obj: sig.return_count_obj, long: sig.return_count_long }
    } else {
        add_kind_of(ScriptReturnCounts { int: 0, obj: 0, long: 0 }, infer_kind_of(e, ctx, true))
    }
}

/// Adds one value of kind `kind` to `counts`.
fn add_kind(counts: ScriptReturnCounts, kind: ReturnValueKind) -> (r: ScriptReturnCounts)
    ensures
        r == add_kind_of(counts, kind),
        r == (match kind {
            ReturnValueKind::Int => ScriptReturnCounts {
                int: if counts.int == u16::MAX {
                    u16::MAX
                } else {
                    (counts.int + 1) as u16
                },
                ..counts
            },
            ReturnValueKind::Object => ScriptReturnCounts {
                obj: if counts.obj == u16::MAX {
                    u16::MAX
                } else {
                    (counts.obj + 1) as u16
                },
                ..counts
            },
            ReturnValueKind::Long => ScriptReturnCounts {
                long: if counts.long == u16::MAX {
                    u16::MAX
                } else {
                    (counts.long + 1) as u16
                },
                ..counts
            },
        }),
{
    match kind {
        ReturnValueKind::Int => ScriptReturnCounts { int: counts.int.saturating_add(1), ..counts },
        ReturnValueKind::Object => ScriptReturnCounts { obj: counts.obj.saturating_add(1), ..counts },
        ReturnValueKind::Long => ScriptReturnCounts { long: counts.long.saturating_add(1), ..counts },
    }
}

/// The values a returned expression puts on each stack.
fn return_value_counts(expr: &Expression, ctx: Option<(&ScriptCatalog, &SignatureMap)>) -> (r: ScriptReturnCounts)
    ensures
        r == value_counts_of(*expr, ctx),
{
    if let Expression::Call(c) = expr {
        if let Expression::Identifier(i) = &*c.callee {
            if str_eq(i.name.as_str(), "stack") {
                let mut counts = ScriptReturnCounts { int: 0, obj: 0, long: 0 };
                let mut k: usize = 0;
                while k < c.arguments.len()
                    invariant
                        *expr == Expression::Call(*c),
                        k <= c.arguments@.len(),
                        counts == stack_counts(*expr, ctx, k as nat),
                    decreases c.arguments.len() - k,
                {
                    if !is_void_script_call(&c.arguments[k], ctx) {
                        counts = add_kind(counts, infer_kind(&c.arguments[k], ctx, true));
                    }
                    k = k + 1;
                }
                return counts;
            }
            if let Some(sig) = export_signature(ctx, i.name.as_str()) {
                let counts = ScriptReturnCounts {
                    int: sig.return_count_int,
                    obj: sig.return_count_obj,
                    long: sig.return_count_long,
                };
                if counts.total() > 0 {
                    return counts;
                }
            }
        }
    }
    add_kind(ScriptReturnCounts { int: 0, obj: 0, long: 0 }, infer_kind(expr, ctx, true))
}

/// Folding the value returns of `stmts` in order: the kind of the first,
/// and whether a later one has another kind.
pub open spec fn kind_fold(stmts: Seq<Option<RecoveredStmt>>, ctx: Option<(&ScriptCatalog, &SignatureMap)>) -> (
    Option<ReturnValueKind>,
    bool,
)
    decreases stmts.len(),
{
    if stmts.len() == 0 {
        (None, false)
    } else {
        let prev = kind_fold(stmts.drop_last(), ctx);
        match stmts.last() {
            Some(RecoveredStmt::Return(Some(v))) => {
                let k = infer_kind_of(v, ctx, true);
                match prev.0 {
                    Some(first) => (prev.0, prev.1 || first != k),
                    None => (Some(k), prev.1),
                }
            },
            _ => prev,
        }
    }
}

/// The kind the value returns of `stmts` share: the first one's, `Int`
/// when two disagree, none when no statement returns a value.
pub open spec fn returned_kind(stmts: Seq<Option<RecoveredStmt>>, ctx: Option<(&ScriptCatalog, &SignatureMap)>) -> Option<
    ReturnValueKind,
> {
    let f = kind_fold(stmts, ctx);
    match f.0 {
        Some(k) => Some(
            if f.1 {
                ReturnValueKind::Int
            } else {
                k
            },
        ),
        None => None,
    }
}

/// The return type label of `stmts`: `void` when no statement returns a
/// value, else the shared kind's type, with `| void` when some return
/// carries no value.
pub open spec fn recovered_return_type(stmts: Seq<Option<RecoveredStmt>>, ctx: Option<(&ScriptCatalog, &SignatureMap)>) -> Seq<
    char,
> {
    match returned_kind(stmts, ctx) {
        Some(k) => return_type_label(k, has_void_return(stmts)),
        None => "void"@,
    }
}

proof fn lemma_kind_fold_some(stmts: Seq<Option<RecoveredStmt>>, ctx: Option<(&ScriptCatalog, &SignatureMap)>)
    ensures
        kind_fold(stmts, ctx).0 is Some <==> has_value_return(stmts),
        kind_fold(stmts, ctx).0 is None ==> !kind_fold(stmts, ctx).1,
    decreases stmts.len(),
{
    if stmts.len() > 0 {
        let d = stmts.drop_last();
        lemma_kind_fold_some(d, ctx);
        if has_value_return(d) {
            let j = choose|j: int| 0 <= j < d.len() && (#[trigger] d[j] matches Some(RecoveredStmt::Return(Some(_))));
            assert(stmts[j] == d[j]);
        }
        if has_value_return(stmts) {
            let j = choose|j: int| 0 <= j < stmts.len() && (#[trigger] stmts[j] matches Some(RecoveredStmt::Return(Some(_))));
            if j < d.len() {
                assert(d[j] == stmts[j]);
            }
        }
        if stmts.last() matches Some(RecoveredStmt::Return(Some(_))) {
            assert(stmts[stmts.len() - 1] == stmts.last());
        }
    }
}

fn detect_return_type_inner(stmts: &[Option<RecoveredStmt>], ctx: Option<(&ScriptCatalog, &SignatureMap)>) -> (r: &'static str)
    ensures
        r@ == recovered_return_type(stmts@, ctx),
{
    let mut value_kind: Option<ReturnValueKind> = None;
    let mut mixed = false;
    let mut has_void = false;
    let mut i: usize = 0;
    while i < stmts.len()
        invariant
            i <= stmts@.len(),
            (value_kind, mixed) == kind_fold(stmts@.take(i as int), ctx),
            has_void <==> has_void_return(stmts@.take(i as int)),
        decreases stmts@.len() - i,
    {
        proof {
            assert(stmts@.take(i + 1) =~= stmts@.take(i as int).push(stmts@[i as int]));
            assert(stmts@.take(i + 1).drop_last() =~= stmts@.take(i as int));
            assert(stmts@.take(i + 1).last() == stmts@[i as int]);
            lemma_kind_fold_some(stmts@.take(i as int), ctx);
            let t = stmts@.take(i + 1);
            if has_value_return(stmts@.take(i as int)) {
                let j = choose|j: int| 0 <= j < i && (#[trigger] stmts@.take(i as int)[j] matches Some(RecoveredStmt::Return(Some(_))));
                assert(t[j] == stmts@.take(i as int)[j]);
            }
            if has_void_return(stmts@.take(i as int)) {
                let j = choose|j: int| 0 <= j < i && #[trigger] stmts@.take(i as int)[j] == Some(RecoveredStmt::Return(None));
                assert(t[j] == stmts@.take(i as int)[j]);
            }
            if has_value_return(t) {
                let j = choose|j: int| 0 <= j < t.len() && (#[trigger] t[j] matches Some(RecoveredStmt::Return(Some(_))));
                if j < i {
                    assert(stmts@.take(i as int)[j] == t[j]);
                }
            }
            if has_void_return(t) {
                let j = choose|j: int| 0 <= j < t.len() && #[trigger] t[j] == Some(RecoveredStmt::Return(None));
                if j < i {
                    assert(stmts@.take(i as int)[j] == t[j]);
                }
            }
            assert(t[i as int] == stmts@[i as int]);
        }
        if let Some(RecoveredStmt::Return(value)) = &stmts[i] {
            match value {
                Some(v) => {
                    let next = infer_kind(v, ctx, true);
                    match value_kind {
                        Some(existing) => {
                            if existing != next {
                                mixed = true;
                            }
                        },
                        None => {
                            value_kind = Some(next);
                        },
                    }
                },
                None => {
                    has_void = true;
                },
            }
        }
        i = i + 1;
    }
    proof {
        assert(stmts@.take(stmts@.len() as int) =~= stmts@);
    }
    let kind = if mixed && value_kind.is_some() {
        Some(ReturnValueKind::Int)
    } else {
        value_kind
    };
    let r: &'static str = match kind {
        Some(ReturnValueKind::Int) => if has_void {
            "number | void"
        } else {
            "number"
        },
        Some(ReturnValueKind::Object) => if has_void {
            "string | void"
        } else {
            "string"
        },
        Some(ReturnValueKind::Long) => if has_void {
            "bigint | void"
        } else {
            "bigint"
        },
        None => "void",
    };
    proof {
        lemma_kind_fold_some(stmts@, ctx);
        if let Some(k) = kind {
            assert(r@ == return_type_label(k, has_void));
        }
    }
    r
}

/// The return type the recovered statements imply, without a control
/// flow graph: `void` when no statement returns a value, else the kind of
/// the values (`number` when they disagree), with `| void` when some
/// return carries none.
pub fn detect_return_type_from_recovered(stmts: &[Option<RecoveredStmt>]) -> (r: &'static str)
    ensures
        r@ == recovered_return_type(stmts@, None),
{
    detect_return_type_inner(stmts, None)
}

/// As `detect_return_type_from_recovered`, with script calls typed by
/// their signatures.
pub fn detect_return_type_from_recovered_with_signatures(
    stmts: &[Option<RecoveredStmt>],
    script_catalog: &ScriptCatalog,
    script_signatures: &SignatureMap,
) -> (r: &'static str)
    ensures
        r@ == recovered_return_type(stmts@, Some((script_catalog, script_signatures))),
{
    detect_return_type_inner(stmts, Some((script_catalog, script_signatures)))
}

/// Folding the value returns of `stmts` in order: whether all agree so
/// far, and the counts of the first.
pub open spec fn counts_fold(stmts: Seq<Option<RecoveredStmt>>, ctx: Option<(&ScriptCatalog, &SignatureMap)>) -> (
    bool,
    Option<ScriptReturnCounts>,
)
    decreases stmts.len(),
{
    if stmts.len() == 0 {
        (true, None)
    } else {
        let prev = counts_fold(stmts.drop_last(), ctx);
        if !prev.0 {
            (false, None)
        } else {
            match stmts.last() {
                Some(RecoveredStmt::Return(Some(v))) => {
                    let n = value_counts_of(v, ctx);
                    match prev.1 {
                        Some(ex) => if ex.int == n.int && ex.obj == n.obj && ex.long == n.long {
                            prev
                        } else {
                            (false, None)
                        },
                        None => (true, Some(n)),
                    }
                },
                _ => prev,
            }
        }
    }
}

proof fn lemma_counts_fold_stays_failed(
    stmts: Seq<Option<RecoveredStmt>>,
    ctx: Option<(&ScriptCatalog, &SignatureMap)>,
    k: int,
)
    requires
        0 <= k <= stmts.len(),
        !counts_fold(stmts.take(k), ctx).0,
    ensures
        !counts_fold(stmts, ctx).0,
    decreases stmts.len() - k,
{
    if k < stmts.len() {
        assert(stmts.take(k + 1).drop_last() =~= stmts.take(k));
        lemma_counts_fold_stays_failed(stmts, ctx, k + 1);
    } else {
        assert(stmts.take(k) =~= stmts);
    }
}

/// The per-stack return counts all value returns agree on; `None` when
/// two disagree or none returns a value.
pub fn detect_return_counts_from_recovered_with_signatures(
    stmts: &[Option<RecoveredStmt>],
    script_catalog: &ScriptCatalog,
    script_signatures: &SignatureMap,
) -> (r: Option<ScriptReturnCounts>)
    ensures
        !has_value_return(stmts@) ==> r is None,
        r == (if counts_fold(stmts@, Some((script_catalog, script_signatures))).0 {
            counts_fold(stmts@, Some((script_catalog, script_signatures))).1
        } else {
            None
        }),
{
    let ctx = Some((script_catalog, script_signatures));
    let mut counts: Option<ScriptReturnCounts> = None;
    let mut i: usize = 0;
    while i < stmts.len()
        invariant
            i <= stmts@.len(),
            counts is Some ==> has_value_return(stmts@),
            ctx == Some((script_catalog, script_signatures)),
            counts_fold(stmts@.take(i as int), ctx) == (true, counts),
        decreases stmts@.len() - i,
    {
        proof {
            assert(stmts@.take(i + 1).drop_last() =~= stmts@.take(i as int));
            assert(stmts@.take(i + 1).last() == stmts@[i as int]);
        }
        if let Some(RecoveredStmt::Return(Some(value))) = &stmts[i] {
            let next = return_value_counts(value, ctx);
            match counts {
                Some(existing) => {
                    if existing.int != next.int || existing.obj != next.obj || existing.long != next.long {
                        proof {
                            lemma_counts_fold_stays_failed(stmts@, ctx, i + 1);
                        }
                        return None;
                    }
                },
                None => {
                    assert(stmts@[i as int] matches Some(RecoveredStmt::Return(Some(_))));
                    counts = Some(next);
                },
            }
        }
        i = i + 1;
    }
    proof {
        assert(stmts@.take(i as int) =~= stmts@);
    }
    counts
}


/// The commands that read or write a variable by reference.
pub open spec fn var_command(c: Seq<char>) -> bool {
    c == "push_var"@ || c == "pop_var"@ || c == "push_varc_int"@ || c == "pop_varc_int"@ || c == "push_varc_string"@
        || c == "pop_varc_string"@ || c == "push_varclan"@ || c == "push_varclan_long"@ || c == "push_varclan_string"@
        || c == "push_varclansetting"@ || c == "push_varclansetting_long"@ || c == "push_varclansetting_string"@
}

/// Whether `cmd` reads or writes a variable by reference.
pub fn is_var_command(cmd: &[char]) -> (r: bool)
    ensures
        r == var_command(cmd@),
{
    chars_eq(cmd, "push_var") || chars_eq(cmd, "pop_var") || chars_eq(cmd, "push_varc_int") || chars_eq(
        cmd,
        "pop_varc_int",
    ) || chars_eq(cmd, "push_varc_string") || chars_eq(cmd, "pop_varc_string") || chars_eq(
        cmd,
        "push_varclan",
    ) || chars_eq(cmd, "push_varclan_long") || chars_eq(cmd, "push_varclan_string") || chars_eq(
        cmd,
        "push_varclansetting",
    ) || chars_eq(cmd, "push_varclansetting_long") || chars_eq(cmd, "push_varclansetting_string")
}

/// The commands that read or write a variable bit by reference.
pub fn is_varbit_command(cmd: &[char]) -> (r: bool)
    ensures
        r == (cmd@ == "push_varbit"@ || cmd@ == "pop_varbit"@ || cmd@ == "push_varclanbit"@ || cmd@
            == "push_varclansettingbit"@),
{
    chars_eq(cmd, "push_varbit") || chars_eq(cmd, "pop_varbit") || chars_eq(cmd, "push_varclanbit")
        || chars_eq(cmd, "push_varclansettingbit")
}

} // verus!
