//! Region-based control-flow structuring: nested `if`/`else`, `while` and
//! `switch` rebuilt from the block graph with immediate post-dominators and
//! natural loops. What cannot be nested faithfully stays a `goto` to a
//! label; blocks whose jumps carry stack values are transcribed linearly.
use crate::text::string_from;
use crate::transpile::ast::{copy_of, copy_opt_expr, Expression};
use crate::transpile::cfg::{assignment_target_from_recovered, branch_condition_expr, recovered_target_ok, Block};
use crate::transpile::expr_recovery::RecoveredStmt;
use crate::transpile::graph::{
    count_false, dominates, dominators, grows, lemma_count_false_grows, lists_below,
    natural_loop_body, post_dominators,
};
use crate::transpile::structured::{stmts_terminate, StructuredStmt, SwitchCaseStmt};
use vstd::prelude::*;

verus! {

/// Nesting depth past which a region is left as a `goto`.
pub const MAX_DEPTH: usize = 400;

/// Structured statements, and why the linear form was used instead, if it
/// was.
pub struct StructureResult {
    pub statements: Vec<StructuredStmt>,
    pub fallback_reason: Option<String>,
}

/// How eagerly branches are folded.
#[derive(Clone, Copy, Debug, PartialEq, Eq, Structural)]
pub struct StructureOptions {
    /// Follow a false arm that only jumps on, to where it jumps.
    pub fold_branch_trampolines: bool,
}

impl StructureOptions {
    /// Fold branch trampolines.
    pub fn aggressive() -> (r: Self)
        ensures
            r.fold_branch_trampolines,
    {
        StructureOptions { fold_branch_trampolines: true }
    }

    /// Keep branch trampolines as jumps.
    pub fn conservative() -> (r: Self)
        ensures
            !r.fold_branch_trampolines,
    {
        StructureOptions { fold_branch_trampolines: false }
    }
}

/// Where control leaves a loop.
#[derive(Clone, Copy)]
enum LoopExit {
    /// No edge leaves the loop (it returns out, or is infinite).
    NoExit,
    /// Exactly one block outside the loop is targeted.
    Single(usize),
    /// Several exit targets: not expressible with an unlabeled `break`.
    Multi,
}

/// Loop headers and each header's exit.
struct LoopInfo {
    headers: Vec<bool>,
    exit: Vec<Option<LoopExit>>,
}

/// The innermost loops being emitted: header and single exit.
#[derive(Clone, Copy)]
struct LoopCtx {
    header: usize,
    exit: Option<usize>,
}

/// What the emitter reads.
struct Ctx<'a> {
    blocks: &'a [Block],
    ipdom: Vec<Option<usize>>,
    loops: LoopInfo,
    label_targets: &'a Vec<usize>,
    options: StructureOptions,
}

/// What the emitter changes: the blocks emitted so far and the labels that
/// `goto`s name.
struct EmitState {
    emitted: Vec<bool>,
    goto_targets: Vec<usize>,
}

impl<'a> Ctx<'a> {
    spec fn wf(&self) -> bool {
        &&& self.ipdom@.len() == self.blocks@.len()
        &&& self.loops.headers@.len() == self.blocks@.len()
        &&& self.loops.exit@.len() == self.blocks@.len()
    }
}

/// The loop headers (targets of back edges to a dominator) and how each
/// loop is left. Successors without successors of their own are returns,
/// not exits.
fn detect_loops(succ: &Vec<Vec<usize>>, pred: &Vec<Vec<usize>>, idom: &Vec<Option<usize>>) -> (r: LoopInfo)
    requires
        succ@.len() == pred@.len(),
        idom@.len() == succ@.len(),
        succ@.len() < usize::MAX,
        lists_below(succ@, succ@.len() as int),
        lists_below(pred@, pred@.len() as int),
        forall|k: int| 0 <= k < idom@.len() ==> (#[trigger] idom@[k] matches Some(d) ==> d < idom@.len()),
    ensures
        r.headers@.len() == succ@.len(),
        r.exit@.len() == succ@.len(),
{
    let n = succ.len();
    let mut headers: Vec<bool> = Vec::new();
    let mut bodies: Vec<Option<Vec<bool>>> = Vec::new();
    let mut k: usize = 0;
    while k < n
        invariant
            k <= n,
            headers@.len() == k,
            bodies@.len() == k,
            forall|q: int| 0 <= q < k ==> (#[trigger] bodies@[q]) is None,
        decreases n - k,
    {
        headers.push(false);
        bodies.push(None);
        k = k + 1;
    }
    let mut u: usize = 0;
    while u < n
        invariant
            n == succ@.len(),
            n == pred@.len(),
            n == idom@.len(),
            n < usize::MAX,
            headers@.len() == n,
            bodies@.len() == n,
            lists_below(succ@, n as int),
            lists_below(pred@, n as int),
            forall|k: int| 0 <= k < n ==> (#[trigger] idom@[k] matches Some(d) ==> d < n),
            forall|k: int| 0 <= k < n ==> (#[trigger] bodies@[k] matches Some(v) ==> v@.len() == n),
        decreases n - u,
    {
        let ss = &succ[u];
        let mut j: usize = 0;
        while j < ss.len()
            invariant
                n == succ@.len(),
                n == pred@.len(),
                n == idom@.len(),
                n < usize::MAX,
                u < n,
                *ss == succ@[u as int],
                headers@.len() == n,
                bodies@.len() == n,
                lists_below(succ@, n as int),
                lists_below(pred@, n as int),
                forall|k: int| 0 <= k < n ==> (#[trigger] idom@[k] matches Some(d) ==> d < n),
                forall|k: int| 0 <= k < n ==> (#[trigger] bodies@[k] matches Some(v) ==> v@.len() == n),
            decreases ss@.len() - j,
        {
            let h = ss[j];
            assert(succ@[u as int]@[j as int] < n);
            if dominates(idom, h, u) {
                headers.set(h, true);
                let natural = natural_loop_body(pred, h, u);
                let merged = match &bodies[h] {
                    Some(existing) => {
                        let mut m: Vec<bool> = Vec::new();
                        let mut q: usize = 0;
                        while q < n
                            invariant
                                q <= n,
                                m@.len() == q,
                                existing@.len() == n,
                                natural@.len() == n,
                            decreases n - q,
                        {
                            m.push(existing[q] || natural[q]);
                            q = q + 1;
                        }
                        m
                    },
                    None => natural,
                };
                bodies.set(h, Some(merged));
            }
            j = j + 1;
        }
        u = u + 1;
    }
    let mut exit: Vec<Option<LoopExit>> = Vec::new();
    let mut h: usize = 0;
    while h < n
        invariant
            h <= n,
            n == succ@.len(),
            bodies@.len() == n,
            exit@.len() == h,
            lists_below(succ@, n as int),
            forall|k: int| 0 <= k < n ==> (#[trigger] bodies@[k] matches Some(v) ==> v@.len() == n),
        decreases n - h,
    {
        match &bodies[h] {
            None => exit.push(None),
            Some(set) => {
                let mut is_exit: Vec<bool> = Vec::new();
                let mut q: usize = 0;
                while q < n
                    invariant
                        q <= n,
                        is_exit@.len() == q,
                    decreases n - q,
                {
                    is_exit.push(false);
                    q = q + 1;
                }
                let mut count: usize = 0;
                let mut first: usize = 0;
                let mut b: usize = 0;
                while b < n
                    invariant
                        n == succ@.len(),
                        set@.len() == n,
                        is_exit@.len() == n,
                        b <= n,
                        lists_below(succ@, n as int),
                    decreases n - b,
                {
                    if set[b] {
                        let ss = &succ[b];
                        let mut j: usize = 0;
                        while j < ss.len()
                            invariant
                                n == succ@.len(),
                                b < n,
                                *ss == succ@[b as int],
                                set@.len() == n,
                                is_exit@.len() == n,
                                j <= ss@.len(),
                                lists_below(succ@, n as int),
                            decreases ss@.len() - j,
                        {
                            let s = ss[j];
                            assert(succ@[b as int]@[j as int] < n);
                            if !set[s] && succ[s].len() > 0 && !is_exit[s] {
                                is_exit.set(s, true);
                                if count == 0 {
                                    first = s;
                                }
                                if count < 2 {
                                    count = count + 1;
                                }
                            }
                            j = j + 1;
                        }
                    }
                    b = b + 1;
                }
                let classified = if count == 0 {
                    LoopExit::NoExit
                } else if count == 1 {
                    LoopExit::Single(first)
                } else {
                    LoopExit::Multi
                };
                exit.push(Some(classified));
            },
        }
        h = h + 1;
    }
    LoopInfo { headers, exit }
}

/// The block holding instruction `instr`.
pub fn block_at_instr(blocks: &[Block], instr: usize) -> (r: Option<usize>)
    ensures
        r matches Some(b) ==> b < blocks@.len() && blocks@[b as int].start <= instr < blocks@[b as int].end,
        r matches Some(b) ==> forall|q: int|
            0 <= q < b ==> !((#[trigger] blocks@[q]).start <= instr < blocks@[q].end),
        r is None ==> forall|b: int|
            0 <= b < blocks@.len() ==> !((#[trigger] blocks@[b]).start <= instr < blocks@[b].end),
{
    let mut b: usize = 0;
    while b < blocks.len()
        invariant
            b <= blocks@.len(),
            forall|q: int| 0 <= q < b ==> !((#[trigger] blocks@[q]).start <= instr < blocks@[q].end),
        decreases blocks@.len() - b,
    {
        if blocks[b].start <= instr && instr < blocks[b].end {
            return Some(b);
        }
        b = b + 1;
    }
    None
}

/// A statement that transfers no control, in structured form.
fn convert_stmt(stmt: &RecoveredStmt) -> (r: Option<StructuredStmt>)
    ensures
        match *stmt {
            RecoveredStmt::Expression(e) => r matches Some(StructuredStmt::Expr { expr }) && copy_of(e, expr),
            RecoveredStmt::Assignment { target, value, .. } => r matches Some(
                StructuredStmt::Assignment { target: t, value: v },
            ) && recovered_target_ok(target@, t) && copy_of(value, v),
            RecoveredStmt::Comment(text) => r matches Some(StructuredStmt::Comment(c)) && c@ == text@,
            _ => r is None,
        },
{
    match stmt {
        RecoveredStmt::Expression(expr) => Some(StructuredStmt::Expr { expr: expr.clone() }),
        RecoveredStmt::Assignment { target, value, .. } => Some(
            StructuredStmt::Assignment {
                target: assignment_target_from_recovered(target.as_str()),
                value: value.clone(),
            },
        ),
        RecoveredStmt::Comment(text) => Some(StructuredStmt::Comment(text.clone())),
        _ => None,
    }
}

/// The first switch statement of a block.
fn switch_of(block: &Block) -> (r: Option<(Expression, Vec<(i32, usize)>)>)
    ensures
        match r {
            Some((d, cs)) => exists|i: int|
                0 <= i < block.statements@.len() && (#[trigger] block.statements@[i] matches RecoveredStmt::Switch {
                    discriminant,
                    cases,
                } && copy_of(discriminant, d) && cs@ == cases@) && forall|j: int|
                    0 <= j < i ==> !(block.statements@[j] is Switch),
            None => forall|i: int| 0 <= i < block.statements@.len() ==> !(block.statements@[i] is Switch),
        },
{
    let mut i: usize = 0;
    while i < block.statements.len()
        invariant
            i <= block.statements@.len(),
            forall|j: int| 0 <= j < i ==> !(block.statements@[j] is Switch),
        decreases block.statements@.len() - i,
    {
        if let RecoveredStmt::Switch { discriminant, cases } = &block.statements[i] {
            let mut cs: Vec<(i32, usize)> = Vec::new();
            let mut k: usize = 0;
            while k < cases.len()
                invariant
                    k <= cases@.len(),
                    cs@ == cases@.take(k as int),
                decreases cases@.len() - k,
            {
                cs.push(cases[k]);
                proof {
                    assert(cs@ =~= cases@.take(k + 1));
                }
                k = k + 1;
            }
            proof {
                assert(cs@ =~= cases@);
            }
            return Some((discriminant.clone(), cs));
        }
        i = i + 1;
    }
    None
}

fn contains_usize(v: &Vec<usize>, x: usize) -> (r: bool)
    ensures
        r == v@.contains(x),
{
    let mut i: usize = 0;
    while i < v.len()
        invariant
            i <= v@.len(),
            forall|j: int| 0 <= j < i ==> v@[j] != x,
        decreases v@.len() - i,
    {
        if v[i] == x {
            return true;
        }
        i = i + 1;
    }
    false
}

/// A statement is a jump, or holds one in a nested body.
pub open spec fn has_jump(st: StructuredStmt) -> bool
    decreases st,
{
    match st {
        StructuredStmt::Goto { .. } => true,
        StructuredStmt::StackGoto { .. } => true,
        StructuredStmt::While { body } => has_jump_list(
            {
                proof {
                    assert(decreases_to!(st => body));
                    assert(decreases_to!(body => body@));
                }
                body@
            },
        ),
        StructuredStmt::If { then_body, else_body, .. } => has_jump_list(
            {
                proof {
                    assert(decreases_to!(st => then_body));
                    assert(decreases_to!(then_body => then_body@));
                }
                then_body@
            },
        ) || match else_body {
            Some(e) => has_jump_list(
                {
                    proof {
                        assert(decreases_to!(st => else_body));
                        assert(decreases_to!(else_body => e));
                        assert(decreases_to!(e => e@));
                    }
                    e@
                },
            ),
            None => false,
        },
        StructuredStmt::Switch { cases, default_body, .. } => has_jump_cases(
            {
                proof {
                    assert(decreases_to!(st => cases));
                    assert(decreases_to!(cases => cases@));
                }
                cases@
            },
        ) || match default_body {
            Some(d) => has_jump_list(
                {
                    proof {
                        assert(decreases_to!(st => default_body));
                        assert(decreases_to!(default_body => d));
                        assert(decreases_to!(d => d@));
                    }
                    d@
                },
            ),
            None => false,
        },
        _ => false,
    }
}

/// Some statement of a list is a jump or holds one.
pub open spec fn has_jump_list(s: Seq<StructuredStmt>) -> bool
    decreases s,
{
    if s.len() == 0 {
        false
    } else {
        has_jump_list(s.subrange(0, s.len() - 1)) || has_jump(s[s.len() - 1])
    }
}

/// Some case body of a switch holds a jump.
pub open spec fn has_jump_cases(cs: Seq<SwitchCaseStmt>) -> bool
    decreases cs,
{
    if cs.len() == 0 {
        false
    } else {
        has_jump_cases(cs.subrange(0, cs.len() - 1)) || has_jump_list(
            {
                proof {
                    assert(decreases_to!(cs => cs[cs.len() - 1]));
                    assert(decreases_to!(cs[cs.len() - 1] => cs[cs.len() - 1].body));
                    assert(decreases_to!(cs[cs.len() - 1].body => cs[cs.len() - 1].body@));
                }
                cs[cs.len() - 1].body@
            },
        )
    }
}

/// Whether any statement, nested bodies included, is a jump.
pub fn contains_goto(stmts: &Vec<StructuredStmt>) -> (r: bool)
    ensures
        r == has_jump_list(stmts@),
    decreases stmts,
{
    let mut i: usize = 0;
    proof {
        assert(stmts@.subrange(0, 0) =~= Seq::<StructuredStmt>::empty());
    }
    while i < stmts.len()
        invariant
            i <= stmts@.len(),
            !has_jump_list(stmts@.subrange(0, i as int)),
        decreases stmts@.len() - i,
    {
        proof {
            assert(decreases_to!(stmts => stmts@));
            assert(decreases_to!(stmts@ => stmts@[i as int]));
            let t = stmts@.subrange(0, i + 1);
            assert(t.subrange(0, t.len() - 1) =~= stmts@.subrange(0, i as int));
            assert(t[t.len() - 1] == stmts@[i as int]);
        }
        let found = match &stmts[i] {
            StructuredStmt::Goto { .. } => true,
            StructuredStmt::StackGoto { .. } => true,
            StructuredStmt::While { body } => {
                proof {
                    assert(decreases_to!(stmts => stmts@[i as int]->While_body));
                }
                contains_goto(body)
            },
            StructuredStmt::If { then_body, else_body, .. } => {
                proof {
                    assert(decreases_to!(stmts => stmts@[i as int]->If_then_body));
                }
                if contains_goto(then_body) {
                    true
                } else {
                    match else_body {
                        Some(e) => {
                            proof {
                                assert(decreases_to!(stmts => stmts@[i as int]->If_else_body));
                                assert(decreases_to!(stmts@[i as int]->If_else_body => e));
                            }
                            contains_goto(e)
                        },
                        None => false,
                    }
                }
            },
            StructuredStmt::Switch { cases, default_body, .. } => {
                let mut any = false;
                let mut k: usize = 0;
                proof {
                    assert(cases@.subrange(0, 0) =~= Seq::<SwitchCaseStmt>::empty());
                    if cases@.len() == 0 {
                        assert(cases@.subrange(0, 0) =~= cases@);
                    }
                }
                while k < cases.len()
                    invariant_except_break
                        !has_jump_cases(cases@.subrange(0, k as int)),
                        !any,
                    invariant
                        stmts@[i as int] matches StructuredStmt::Switch { cases: cs, .. } && cs == *cases,
                        i < stmts@.len(),
                        k <= cases@.len(),
                        k == cases@.len() ==> cases@.subrange(0, k as int) == cases@,
                    ensures
                        any == has_jump_cases(cases@),
                    decreases cases@.len() - k,
                {
                    proof {
                        assert(decreases_to!(stmts => stmts@[i as int]->Switch_cases));
                        assert(decreases_to!(cases => cases@));
                        assert(decreases_to!(cases@ => cases@[k as int]));
                        assert(decreases_to!(cases@[k as int] => cases@[k as int].body));
                        assert(decreases_to!(stmts => cases@[k as int].body));
                        let t = cases@.subrange(0, k + 1);
                        assert(t.subrange(0, t.len() - 1) =~= cases@.subrange(0, k as int));
                        assert(t[t.len() - 1] == cases@[k as int]);
                    }
                    if contains_goto(&cases[k].body) {
                        any = true;
                        proof {
                            lemma_has_jump_cases_prefix(cases@, k + 1);
                        }
                        break;
                    }
                    k = k + 1;
                    proof {
                        if k == cases@.len() {
                            assert(cases@.subrange(0, k as int) =~= cases@);
                        }
                    }
                }
                if any {
                    true
                } else {
                    match default_body {
                        Some(d) => {
                            proof {
                                assert(decreases_to!(stmts => stmts@[i as int]->Switch_default_body));
                                assert(decreases_to!(stmts@[i as int]->Switch_default_body => d));
                            }
                            contains_goto(d)
                        },
                        None => false,
                    }
                }
            },
            _ => false,
        };
        assert(found == has_jump(stmts@[i as int]));
        if found {
            proof {
                lemma_has_jump_list_prefix(stmts@, i + 1);
            }
            return true;
        }
        i = i + 1;
    }
    proof {
        assert(stmts@.subrange(0, i as int) =~= stmts@);
    }
    false
}

proof fn lemma_has_jump_list_prefix(s: Seq<StructuredStmt>, k: int)
    requires
        0 <= k <= s.len(),
        has_jump_list(s.subrange(0, k)),
    ensures
        has_jump_list(s),
    decreases s.len() - k,
{
    if k < s.len() {
        let t = s.subrange(0, k + 1);
        assert(t.subrange(0, t.len() - 1) =~= s.subrange(0, k));
        lemma_has_jump_list_prefix(s, k + 1);
    } else {
        assert(s.subrange(0, k) =~= s);
    }
}

proof fn lemma_has_jump_cases_prefix(s: Seq<SwitchCaseStmt>, k: int)
    requires
        0 <= k <= s.len(),
        has_jump_cases(s.subrange(0, k)),
    ensures
        has_jump_cases(s),
    decreases s.len() - k,
{
    if k < s.len() {
        let t = s.subrange(0, k + 1);
        assert(t.subrange(0, t.len() - 1) =~= s.subrange(0, k));
        lemma_has_jump_cases_prefix(s, k + 1);
    } else {
        assert(s.subrange(0, k) =~= s);
    }
}

/// Some block holds a jump that carries stack values.
pub open spec fn has_stack_goto_spec(blocks: Seq<Block>) -> bool {
    exists|b: int, s: int|
        0 <= b < blocks.len() && 0 <= s < blocks[b].statements@.len() && (
        #[trigger] blocks[b].statements@[s] is GotoStack)
}

fn has_stack_goto(blocks: &[Block]) -> (r: bool)
    ensures
        r == has_stack_goto_spec(blocks@),
{
    let mut b: usize = 0;
    while b < blocks.len()
        invariant
            b <= blocks@.len(),
            forall|q: int, s: int|
                0 <= q < b && 0 <= s < blocks@[q].statements@.len() ==> !(
                #[trigger] blocks@[q].statements@[s] is GotoStack),
        decreases blocks@.len() - b,
    {
        let stmts = &blocks[b].statements;
        let mut s: usize = 0;
        while s < stmts.len()
            invariant
                b < blocks@.len(),
                *stmts == blocks@[b as int].statements,
                s <= stmts@.len(),
                forall|q: int, t: int|
                    0 <= q < b && 0 <= t < blocks@[q].statements@.len() ==> !(
                    #[trigger] blocks@[q].statements@[t] is GotoStack),
                forall|t: int| 0 <= t < s ==> !(#[trigger] stmts@[t] is GotoStack),
            decreases stmts@.len() - s,
        {
            if let RecoveredStmt::GotoStack { .. } = &stmts[s] {
                return true;
            }
            s = s + 1;
        }
        b = b + 1;
    }
    false
}

/// `k` is the first block that holds instruction `t`.
pub open spec fn first_block(blocks: Seq<Block>, k: int, t: int) -> bool {
    &&& 0 <= k < blocks.len()
    &&& blocks[k].start <= t < blocks[k].end
    &&& forall|q: int| 0 <= q < k ==> !((#[trigger] blocks[q]).start <= t < blocks[q].end)
}

/// No block holds instruction `t`.
pub open spec fn in_no_block(blocks: Seq<Block>, t: int) -> bool {
    forall|b: int| 0 <= b < blocks.len() ==> !((#[trigger] blocks[b]).start <= t < blocks[b].end)
}

/// The instructions a recovered statement may jump to.
pub open spec fn stmt_targets(st: RecoveredStmt) -> Seq<usize> {
    match st {
        RecoveredStmt::Goto(t) => seq![t],
        RecoveredStmt::GotoStack { target, .. } => seq![target],
        RecoveredStmt::Branch { target, .. } => seq![target],
        RecoveredStmt::BranchBinary { target, .. } => seq![target],
        RecoveredStmt::Switch { cases, .. } => cases@.map_values(|c: (i32, usize)| c.1),
        _ => seq![],
    }
}

/// The block that first holds `t` is marked.
pub open spec fn target_marked(blocks: Seq<Block>, marks: Seq<bool>, t: int) -> bool {
    forall|k: int| #[trigger] first_block(blocks, k, t) ==> marks[k]
}

/// Every target of `st` has its block marked.
pub open spec fn stmt_marked(blocks: Seq<Block>, marks: Seq<bool>, st: RecoveredStmt) -> bool {
    forall|i: int| 0 <= i < stmt_targets(st).len() ==> target_marked(blocks, marks, #[trigger] stmt_targets(st)[i] as int)
}

/// The statements of blocks before `b`, and the first `s` of block `b`,
/// have their targets marked.
pub open spec fn marked_upto(blocks: Seq<Block>, marks: Seq<bool>, b: int, s: int) -> bool {
    &&& forall|bb: int, ss: int|
        0 <= bb < b && 0 <= ss < blocks[bb].statements@.len() ==> stmt_marked(
            blocks,
            marks,
            #[trigger] blocks[bb].statements@[ss],
        )
    &&& forall|ss: int| 0 <= ss < s ==> stmt_marked(blocks, marks, #[trigger] blocks[b].statements@[ss])
}

/// Marks only turn on.
pub open spec fn marks_grow(a: Seq<bool>, b: Seq<bool>) -> bool {
    a.len() == b.len() && forall|k: int| 0 <= k < a.len() && #[trigger] a[k] ==> b[k]
}

proof fn lemma_marked_upto_grows(blocks: Seq<Block>, a: Seq<bool>, c: Seq<bool>, b: int, s: int)
    requires
        marked_upto(blocks, a, b, s),
        marks_grow(a, c),
        a.len() == blocks.len(),
    ensures
        marked_upto(blocks, c, b, s),
{
    assert forall|bb: int, ss: int|
        0 <= bb < b && 0 <= ss < blocks[bb].statements@.len() implies stmt_marked(
        blocks,
        c,
        #[trigger] blocks[bb].statements@[ss],
    ) by {
        let st = blocks[bb].statements@[ss];
        assert(stmt_marked(blocks, a, st));
        assert forall|i: int| 0 <= i < stmt_targets(st).len() implies target_marked(
            blocks,
            c,
            #[trigger] stmt_targets(st)[i] as int,
        ) by {
            assert(target_marked(blocks, a, stmt_targets(st)[i] as int));
        }
    }
    assert forall|ss: int| 0 <= ss < s implies stmt_marked(blocks, c, #[trigger] blocks[b].statements@[ss]) by {
        let st = blocks[b].statements@[ss];
        assert(stmt_marked(blocks, a, st));
        assert forall|i: int| 0 <= i < stmt_targets(st).len() implies target_marked(
            blocks,
            c,
            #[trigger] stmt_targets(st)[i] as int,
        ) by {
            assert(target_marked(blocks, a, stmt_targets(st)[i] as int));
        }
    }
}

/// The start of the block holding `instr`, else `instr`.
fn label_start(blocks: &[Block], instr: usize) -> (r: usize)
    ensures
        (exists|k: int| first_block(blocks@, k, instr as int) && r == blocks@[k].start) || (in_no_block(
            blocks@,
            instr as int,
        ) && r == instr),
{
    match block_at_instr(blocks, instr) {
        Some(b) => {
            proof {
                assert(first_block(blocks@, b as int, instr as int));
            }
            blocks[b].start
        },
        None => instr,
    }
}

/// A jump to `t` lands on a label of `r`, or `t` lies in no block.
pub open spec fn jump_lands(blocks: Seq<Block>, r: Seq<StructuredStmt>, t: usize) -> bool {
    (exists|j: int| 0 <= j < r.len() && #[trigger] r[j] == (StructuredStmt::Label { target: t })) || in_no_block(
        blocks,
        t as int,
    )
}

/// A jump to `t` goes to the start of a marked block, or `t` lies in no
/// block.
pub open spec fn jump_marked(blocks: Seq<Block>, marks: Seq<bool>, t: usize) -> bool {
    (exists|k: int| 0 <= k < blocks.len() && #[trigger] marks[k] && blocks[k].start == t) || in_no_block(
        blocks,
        t as int,
    )
}

/// A statement of the linear form: no loop, `break` or `continue`; each
/// jump, conditional jump and switch case a `goto` whose target `ok`
/// accepts.
pub open spec fn linear_stmt(st: StructuredStmt, ok: spec_fn(usize) -> bool) -> bool {
    match st {
        StructuredStmt::While { .. } => false,
        StructuredStmt::Break => false,
        StructuredStmt::Continue => false,
        StructuredStmt::Goto { target } => ok(target),
        StructuredStmt::StackGoto { target, .. } => ok(target),
        StructuredStmt::If { then_body, else_body, .. } => else_body is None && then_body@.len() == 1 && (
        then_body@[0] matches StructuredStmt::Goto { target } && ok(target)),
        StructuredStmt::Switch { cases, default_body, .. } => default_body is None && forall|c: int|
            0 <= c < cases@.len() ==> (#[trigger] cases@[c]).body@.len() == 1 && (cases@[c].body@[0] matches StructuredStmt::Goto {
                target,
            } && ok(target)),
        _ => true,
    }
}

/// `r` is a linear form of `blocks`: every label names a block start, and
/// every statement is linear with its jumps landing on labels (or out of
/// all blocks).
pub open spec fn linear_form(blocks: Seq<Block>, r: Seq<StructuredStmt>) -> bool {
    &&& forall|i: int|
        0 <= i < r.len() ==> (#[trigger] r[i] matches StructuredStmt::Label { target } ==> exists|b: int|
            0 <= b < blocks.len() && blocks[b].start == target)
    &&& forall|i: int| 0 <= i < r.len() ==> linear_stmt(#[trigger] r[i], |t: usize| jump_lands(blocks, r, t))
}

/// The linear form: blocks in order, each jump target labelled, each
/// terminator a `goto`, an `if (cond) goto`, a `switch` of `goto`s or a
/// return. Every label names the start of a block; every jump lands on a
/// label unless its target lies in no block; there are no loops, `break`s
/// or `continue`s.
pub fn structure_linear(blocks: &[Block]) -> (r: Vec<StructuredStmt>)
    ensures
        forall|i: int|
            0 <= i < r@.len() ==> (#[trigger] r@[i] matches StructuredStmt::Label { target } ==> exists|b: int|
                0 <= b < blocks@.len() && blocks@[b].start == target),
        forall|i: int| 0 <= i < r@.len() ==> linear_stmt(#[trigger] r@[i], |t: usize| jump_lands(blocks@, r@, t)),
{
    let n = blocks.len();
    let mut needs_label: Vec<bool> = Vec::new();
    let mut k: usize = 0;
    while k < n
        invariant
            k <= n,
            needs_label@.len() == k,
        decreases n - k,
    {
        needs_label.push(false);
        k = k + 1;
    }
    let mut b: usize = 0;
    while b < n
        invariant
            n == blocks@.len(),
            b <= n,
            needs_label@.len() == n,
            marked_upto(blocks@, needs_label@, b as int, 0),
        decreases n - b,
    {
        let stmts = &blocks[b].statements;
        let mut s: usize = 0;
        while s < stmts.len()
            invariant
                n == blocks@.len(),
                b < n,
                s <= stmts@.len(),
                *stmts == blocks@[b as int].statements,
                needs_label@.len() == n,
                marked_upto(blocks@, needs_label@, b as int, s as int),
            decreases stmts@.len() - s,
        {
            let ghost before = needs_label@;
            match &stmts[s] {
                RecoveredStmt::Goto(t) => mark_label(blocks, &mut needs_label, *t),
                RecoveredStmt::GotoStack { target, .. } => mark_label(blocks, &mut needs_label, *target),
                RecoveredStmt::Branch { target, .. } => mark_label(blocks, &mut needs_label, *target),
                RecoveredStmt::BranchBinary { target, .. } => mark_label(
                    blocks,
                    &mut needs_label,
                    *target,
                ),
                RecoveredStmt::Switch { cases, .. } => {
                    let ghost ts = stmt_targets(stmts@[s as int]);
                    let mut c: usize = 0;
                    while c < cases.len()
                        invariant
                            n == blocks@.len(),
                            needs_label@.len() == n,
                            c <= cases@.len(),
                            ts == cases@.map_values(|p: (i32, usize)| p.1),
                            marks_grow(before, needs_label@),
                            forall|i: int| 0 <= i < c ==> target_marked(blocks@, needs_label@, #[trigger] ts[i] as int),
                        decreases cases@.len() - c,
                    {
                        let ghost mid = needs_label@;
                        mark_label(blocks, &mut needs_label, cases[c].1);
                        proof {
                            assert forall|i: int| 0 <= i < c + 1 implies target_marked(
                                blocks@,
                                needs_label@,
                                #[trigger] ts[i] as int,
                            ) by {
                                if i < c {
                                    assert(target_marked(blocks@, mid, ts[i] as int));
                                }
                            }
                        }
                        c = c + 1;
                    }
                },
                _ => {},
            }
            proof {
                lemma_marked_upto_grows(blocks@, before, needs_label@, b as int, s as int);
                assert(stmt_marked(blocks@, needs_label@, stmts@[s as int]));
            }
            s = s + 1;
        }
        proof {
            assert forall|bb: int, ss: int|
                0 <= bb < b + 1 && 0 <= ss < blocks@[bb].statements@.len() implies stmt_marked(
                blocks@,
                needs_label@,
                #[trigger] blocks@[bb].statements@[ss],
            ) by {
                if bb == b {
                    assert(stmt_marked(blocks@, needs_label@, blocks@[b as int].statements@[ss]));
                }
            }
        }
        b = b + 1;
    }
    let ghost marks = needs_label@;
    let mut out: Vec<StructuredStmt> = Vec::new();
    let mut bi: usize = 0;
    while bi < n
        invariant
            n == blocks@.len(),
            bi <= n,
            needs_label@ == marks,
            marks.len() == n,
            marked_upto(blocks@, marks, n as int, 0),
            forall|i: int|
                0 <= i < out@.len() ==> (#[trigger] out@[i] matches StructuredStmt::Label { target }
                    ==> exists|b: int| 0 <= b < blocks@.len() && blocks@[b].start == target),
            forall|i: int| 0 <= i < out@.len() ==> linear_stmt(#[trigger] out@[i], |t: usize| jump_marked(blocks@, marks, t)),
            forall|q: int|
                0 <= q < bi && #[trigger] marks[q] ==> exists|j: int|
                    0 <= j < out@.len() && out@[j] == (StructuredStmt::Label { target: blocks@[q].start }),
        decreases n - bi,
    {
        let ghost out0 = out@;
        if needs_label[bi] {
            out.push(StructuredStmt::Label { target: blocks[bi].start });
            proof {
                assert(out@[out@.len() - 1] == (StructuredStmt::Label { target: blocks@[bi as int].start }));
            }
        }
        proof {
            assert forall|q: int|
                0 <= q < bi + 1 && #[trigger] marks[q] implies exists|j: int|
                0 <= j < out@.len() && out@[j] == (StructuredStmt::Label { target: blocks@[q].start }) by {
                if q == bi {
                    assert(out@[out@.len() - 1] == (StructuredStmt::Label { target: blocks@[bi as int].start }));
                } else {
                    let j = choose|j: int|
                        0 <= j < out0.len() && out0[j] == (StructuredStmt::Label { target: blocks@[q].start });
                    assert(out@[j] == out0[j]);
                }
            }
        }
        let stmts = &blocks[bi].statements;
        let mut s: usize = 0;
        while s < stmts.len()
            invariant
                n == blocks@.len(),
                bi < n,
                *stmts == blocks@[bi as int].statements,
                marks.len() == n,
                marked_upto(blocks@, marks, n as int, 0),
                forall|i: int|
                    0 <= i < out@.len() ==> (#[trigger] out@[i] matches StructuredStmt::Label { target }
                        ==> exists|b: int| 0 <= b < blocks@.len() && blocks@[b].start == target),
                forall|i: int| 0 <= i < out@.len() ==> linear_stmt(#[trigger] out@[i], |t: usize| jump_marked(blocks@, marks, t)),
                forall|q: int|
                    0 <= q < bi + 1 && #[trigger] marks[q] ==> exists|j: int|
                        0 <= j < out@.len() && out@[j] == (StructuredStmt::Label { target: blocks@[q].start }),
            decreases stmts@.len() - s,
        {
            let stmt = &stmts[s];
            proof {
                assert(stmt_marked(blocks@, marks, blocks@[bi as int].statements@[s as int]));
                assert(stmt_marked(blocks@, marks, *stmt));
            }
            let converted = match stmt {
                RecoveredStmt::Return(value) => StructuredStmt::Return { value: value.clone() },
                RecoveredStmt::Goto(target) => {
                    proof {
                        assert(stmt_targets(*stmt)[0] == *target);
                        lemma_target_jump(blocks@, marks, *target);
                    }
                    let t = label_start(blocks, *target);
                    proof {
                        lemma_label_start_marked(blocks@, marks, *target, t);
                    }
                    StructuredStmt::Goto { target: t }
                },
                RecoveredStmt::GotoStack { target, values } => {
                    proof {
                        assert(stmt_targets(*stmt)[0] == *target);
                        lemma_target_jump(blocks@, marks, *target);
                    }
                    let t = label_start(blocks, *target);
                    proof {
                        lemma_label_start_marked(blocks@, marks, *target, t);
                    }
                    StructuredStmt::StackGoto { target: t, values: values.clone() }
                },
                RecoveredStmt::Branch { target, .. } | RecoveredStmt::BranchBinary { target, .. } => {
                    proof {
                        assert(stmt_targets(*stmt)[0] == *target);
                        lemma_target_jump(blocks@, marks, *target);
                    }
                    let t = label_start(blocks, *target);
                    proof {
                        lemma_label_start_marked(blocks@, marks, *target, t);
                    }
                    let jump = StructuredStmt::Goto { target: t };
                    match branch_condition_expr(stmt) {
                        Some(condition) => StructuredStmt::If {
                            condition,
                            then_body: vec![jump],
                            else_body: None,
                        },
                        None => jump,
                    }
                },
                RecoveredStmt::Switch { discriminant, cases } => {
                    let ghost ts = stmt_targets(*stmt);
                    let mut out_cases: Vec<SwitchCaseStmt> = Vec::new();
                    let mut c: usize = 0;
                    while c < cases.len()
                        invariant
                            c <= cases@.len(),
                            out_cases@.len() == c,
                            ts == cases@.map_values(|p: (i32, usize)| p.1),
                            forall|i: int| 0 <= i < ts.len() ==> target_marked(blocks@, marks, #[trigger] ts[i] as int),
                            forall|i: int|
                                0 <= i < c ==> (#[trigger] out_cases@[i]).body@.len() == 1 && (out_cases@[i].body@[0] matches StructuredStmt::Goto {
                                    target,
                                } && jump_marked(blocks@, marks, target)),
                        decreases cases@.len() - c,
                    {
                        proof {
                            assert(ts[c as int] == cases@[c as int].1);
                            lemma_target_jump(blocks@, marks, cases@[c as int].1);
                        }
                        let t = label_start(blocks, cases[c].1);
                        proof {
                            lemma_label_start_marked(blocks@, marks, cases@[c as int].1, t);
                        }
                        out_cases.push(
                            SwitchCaseStmt {
                                value: cases[c].0,
                                body: vec![StructuredStmt::Goto { target: t }],
                                fallthrough: false,
                                break_after: true,
                            },
                        );
                        c = c + 1;
                    }
                    StructuredStmt::Switch {
                        expr: discriminant.clone(),
                        cases: out_cases,
                        default_body: None,
                    }
                },
                RecoveredStmt::Expression(expr) => StructuredStmt::Expr { expr: expr.clone() },
                RecoveredStmt::Assignment { target, value, .. } => StructuredStmt::Assignment {
                    target: assignment_target_from_recovered(target.as_str()),
                    value: value.clone(),
                },
                RecoveredStmt::Comment(text) => StructuredStmt::Comment(text.clone()),
            };
            proof {
                assert(linear_stmt(converted, |t: usize| jump_marked(blocks@, marks, t)));
            }
            let ghost out1 = out@;
            out.push(converted);
            proof {
                assert forall|q: int|
                    0 <= q < bi + 1 && #[trigger] marks[q] implies exists|j: int|
                    0 <= j < out@.len() && out@[j] == (StructuredStmt::Label { target: blocks@[q].start }) by {
                    let j = choose|j: int|
                        0 <= j < out1.len() && out1[j] == (StructuredStmt::Label { target: blocks@[q].start });
                    assert(out@[j] == out1[j]);
                }
            }
            s = s + 1;
        }
        bi = bi + 1;
    }
    proof {
        assert forall|i: int| 0 <= i < out@.len() implies linear_stmt(
            #[trigger] out@[i],
            |t: usize| jump_lands(blocks@, out@, t),
        ) by {
            lemma_marked_lands(blocks@, marks, out@, out@[i]);
        }
    }
    out
}

proof fn lemma_target_jump(blocks: Seq<Block>, marks: Seq<bool>, t: usize)
    requires
        target_marked(blocks, marks, t as int),
    ensures
        forall|k: int| first_block(blocks, k, t as int) ==> marks[k],
{
    assert forall|k: int| first_block(blocks, k, t as int) implies marks[k] by {
        assert(first_block(blocks, k, t as int));
    }
}

proof fn lemma_label_start_marked(blocks: Seq<Block>, marks: Seq<bool>, t: usize, r: usize)
    requires
        forall|k: int| first_block(blocks, k, t as int) ==> marks[k],
        (exists|k: int| first_block(blocks, k, t as int) && r == blocks[k].start) || (in_no_block(
            blocks,
            t as int,
        ) && r == t),
    ensures
        jump_marked(blocks, marks, r),
{
    if exists|k: int| first_block(blocks, k, t as int) && r == blocks[k].start {
        let k = choose|k: int| first_block(blocks, k, t as int) && r == blocks[k].start;
        assert(marks[k]);
    }
}

proof fn lemma_marked_lands(blocks: Seq<Block>, marks: Seq<bool>, r: Seq<StructuredStmt>, st: StructuredStmt)
    requires
        linear_stmt(st, |t: usize| jump_marked(blocks, marks, t)),
        marks.len() == blocks.len(),
        forall|q: int|
            0 <= q < blocks.len() && #[trigger] marks[q] ==> exists|j: int|
                0 <= j < r.len() && r[j] == (StructuredStmt::Label { target: blocks[q].start }),
    ensures
        linear_stmt(st, |t: usize| jump_lands(blocks, r, t)),
{
    assert forall|t: usize| jump_marked(blocks, marks, t) implies jump_lands(blocks, r, t) by {
        if exists|k: int| 0 <= k < blocks.len() && #[trigger] marks[k] && blocks[k].start == t {
            let k = choose|k: int| 0 <= k < blocks.len() && #[trigger] marks[k] && blocks[k].start == t;
            let j = choose|j: int| 0 <= j < r.len() && r[j] == (StructuredStmt::Label { target: blocks[k].start });
            assert(r[j] == (StructuredStmt::Label { target: t }));
        }
    }
    match st {
        StructuredStmt::Switch { cases, .. } => {
            assert forall|c: int| 0 <= c < cases@.len() implies (#[trigger] cases@[c]).body@.len() == 1 && (
            cases@[c].body@[0] matches StructuredStmt::Goto { target } && jump_lands(blocks, r, target)) by {
                assert(cases@[c].body@.len() == 1);
            }
        },
        _ => {},
    }
}

/// Marks the block holding instruction `instr` as a jump target.
fn mark_label(blocks: &[Block], needs_label: &mut Vec<bool>, instr: usize)
    requires
        old(needs_label)@.len() == blocks@.len(),
    ensures
        final(needs_label)@.len() == blocks@.len(),
        marks_grow(old(needs_label)@, final(needs_label)@),
        target_marked(blocks@, final(needs_label)@, instr as int),
{
    if let Some(b) = block_at_instr(blocks, instr) {
        needs_label.set(b, true);
        proof {
            assert forall|k: int| #[trigger] first_block(blocks@, k, instr as int) implies needs_label@[k] by {
                if k < b {
                    assert(blocks@[b as int].start <= instr < blocks@[b as int].end);
                } else if k > b {
                    assert(!(blocks@[b as int].start <= instr < blocks@[b as int].end));
                }
            }
        }
    }
}


/// The emitter's state fits the blocks, and the emitted set only grows.
pub open spec fn state_kept(old_st: Seq<bool>, new_st: Seq<bool>) -> bool {
    grows(old_st, new_st)
}

/// The statements of a block that transfer no control, in order.
spec fn plain_stmts(s: Seq<RecoveredStmt>) -> Seq<RecoveredStmt>
    decreases s.len(),
{
    if s.len() == 0 {
        seq![]
    } else if s.last() is Expression || s.last() is Assignment || s.last() is Comment {
        plain_stmts(s.drop_last()).push(s.last())
    } else {
        plain_stmts(s.drop_last())
    }
}

/// `s` is the structured form of the plain statement `r`.
spec fn converts_to(r: RecoveredStmt, s: StructuredStmt) -> bool {
    match r {
        RecoveredStmt::Expression(e) => s matches StructuredStmt::Expr { expr } && copy_of(e, expr),
        RecoveredStmt::Assignment { target, value, .. } => s matches StructuredStmt::Assignment {
            target: t,
            value: v,
        } && recovered_target_ok(target@, t) && copy_of(value, v),
        RecoveredStmt::Comment(text) => s matches StructuredStmt::Comment(c) && c@ == text@,
        _ => false,
    }
}

/// 1 when jumps name block `b`'s start (so the block opens with its
/// label), else 0.
spec fn label_count(ctx: &Ctx, b: int) -> int {
    if ctx.label_targets@.contains(ctx.blocks@[b].start) {
        1
    } else {
        0
    }
}

/// `s[i]` is the first `return` among the statements `s`.
spec fn first_return_at(s: Seq<RecoveredStmt>, i: int) -> bool {
    &&& 0 <= i < s.len()
    &&& s[i] is Return
    &&& forall|j: int| 0 <= j < i ==> !(#[trigger] s[j] is Return)
}

/// `b` is a copy of the optional value `a`.
spec fn copy_of_opt(a: Option<Expression>, b: Option<Expression>) -> bool {
    match a {
        Some(x) => b matches Some(y) && copy_of(x, y),
        None => b is None,
    }
}

/// `body` opens with the label and the plain statements of block `b`.
spec fn opens_plain(ctx: &Ctx, body: Seq<StructuredStmt>, b: int) -> bool {
    let ps = plain_stmts(ctx.blocks@[b].statements@);
    &&& body.len() >= label_count(ctx, b) + ps.len()
    &&& label_count(ctx, b) == 1 ==> body[0] == (StructuredStmt::Label { target: ctx.blocks@[b].start })
    &&& forall|k: int| 0 <= k < ps.len() ==> converts_to(ps[k], #[trigger] body[label_count(ctx, b) + k])
}

/// Where block `b` returns, `body` goes on, after the block's label and
/// plain statements, with the `return` of the block's first return value.
spec fn returns_as_block(ctx: &Ctx, body: Seq<StructuredStmt>, b: int) -> bool {
    let s = ctx.blocks@[b].statements@;
    let at = label_count(ctx, b) + plain_stmts(s).len();
    forall|i: int|
        #[trigger] first_return_at(s, i) ==> at < body.len() && (body[at] matches StructuredStmt::Return {
            value,
        } && copy_of_opt(s[i]->Return_0, value))
}

/// `body` opens with block `b`: the block's label when jumps name it, then
/// the structured forms of its plain statements, in order, then its
/// `return` where it has one.
spec fn opens_with_block(ctx: &Ctx, body: Seq<StructuredStmt>, b: int) -> bool {
    &&& opens_plain(ctx, body, b)
    &&& returns_as_block(ctx, body, b)
}

/// Block `b` is entered afresh by emission from `st`: it exists, is not
/// emitted yet, is no loop header and no edge of the innermost loop.
spec fn fresh_block(ctx: &Ctx, emitted: Seq<bool>, loops: Seq<LoopCtx>, b: int) -> bool {
    &&& 0 <= b < ctx.blocks@.len()
    &&& !emitted[b]
    &&& !ctx.loops.headers@[b]
    &&& loop_edge_of(b as usize, loops) is None
}

proof fn lemma_opens_prefix(ctx: &Ctx, a: Seq<StructuredStmt>, c: Seq<StructuredStmt>, b: int)
    requires
        opens_with_block(ctx, a, b),
        a.len() <= c.len(),
        forall|k: int| 0 <= k < a.len() ==> c[k] == a[k],
    ensures
        opens_with_block(ctx, c, b),
{
    let ps = plain_stmts(ctx.blocks@[b].statements@);
    assert forall|k: int| 0 <= k < ps.len() implies converts_to(ps[k], #[trigger] c[label_count(ctx, b) + k]) by {
        assert(converts_to(ps[k], a[label_count(ctx, b) + k]));
        assert(c[label_count(ctx, b) + k] == a[label_count(ctx, b) + k]);
    }
    if label_count(ctx, b) == 1 {
        assert(c[0] == a[0]);
    }
    let s = ctx.blocks@[b].statements@;
    let at = label_count(ctx, b) + ps.len();
    assert forall|i: int| #[trigger] first_return_at(s, i) implies at < c.len() && (c[at] matches StructuredStmt::Return {
        value,
    } && copy_of_opt(s[i]->Return_0, value)) by {
        assert(c[at] == a[at]);
    }
}

/// Block `cur` ends in a two-way branch on its condition: no return,
/// value-carrying jump or switch.
spec fn two_way(ctx: &Ctx, cur: int) -> bool {
    let blk = ctx.blocks@[cur];
    &&& blk.is_conditional_branch
    &&& blk.successors@.len() >= 2
    &&& blk.branch_condition is Some
    &&& forall|i: int|
        0 <= i < blk.statements@.len() ==> !(#[trigger] blk.statements@[i] is Return) && !(
        blk.statements@[i] is GotoStack) && !(blk.statements@[i] is Switch)
}

/// Block `cur` ends in a two-way branch, its two successors differ, and its
/// taken successor is entered afresh within the depth limit.
spec fn conditional_fresh(ctx: &Ctx, emitted: Seq<bool>, loops: Seq<LoopCtx>, cur: int, depth: int) -> bool {
    let blk = ctx.blocks@[cur];
    &&& two_way(ctx, cur)
    &&& blk.successors@[0] != blk.successors@[1]
    &&& depth + 1 <= MAX_DEPTH
    &&& fresh_block(ctx, emitted, loops, blk.successors@[0] as int)
}

/// The fall-through successor `b` is taken as it is: trampolines are not
/// folded, or block `b` is no lone jump.
spec fn kept_as_is(ctx: &Ctx, b: int) -> bool {
    !ctx.options.fold_branch_trampolines || !(0 <= b < ctx.blocks@.len() && ctx.blocks@[b].statements@.len() == 1
        && ctx.blocks@[b].statements@[0] is Goto)
}

/// The label a jump to block `b` names.
spec fn block_label(ctx: &Ctx, b: usize) -> usize {
    if b < ctx.blocks@.len() {
        ctx.blocks@[b as int].start
    } else {
        b
    }
}

/// `body` is the arm of an `if` that leads to block `target`, where `join`
/// is the block after the `if`: the loop's `break` or `continue` when
/// `target` is an edge of the innermost loop, nothing when it is the join,
/// else a `goto` to it, its loop, or code that opens with the block.
spec fn arm_leads_to(ctx: &Ctx, loops: Seq<LoopCtx>, body: Seq<StructuredStmt>, join: Option<usize>, target: usize) -> bool {
    match loop_edge_of(target, loops) {
        Some(edge) => body == seq![edge],
        None => if join == Some(target) {
            body.len() == 0
        } else {
            body == seq![StructuredStmt::Goto { target: block_label(ctx, target) }] || (target < ctx.blocks@.len()
                && ctx.loops.headers@[target as int]) || opens_with_block(ctx, body, target as int)
        },
    }
}

/// The statements of an optional `else` arm.
spec fn else_stmts(e: Option<Vec<StructuredStmt>>) -> Seq<StructuredStmt> {
    match e {
        Some(v) => v@,
        None => seq![],
    }
}

/// The immediate post-dominator of block `b`, if it is a block.
fn ipdom_of(ctx: &Ctx, b: usize) -> (r: Option<usize>)
    requires
        ctx.wf(),
        b < ctx.blocks@.len(),
    ensures
        r matches Some(j) ==> j < ctx.blocks@.len(),
{
    match ctx.ipdom[b] {
        Some(j) => if j < ctx.blocks.len() {
            Some(j)
        } else {
            None
        },
        None => None,
    }
}

/// `continue` for the innermost loop's header, `break` for its exit,
/// nothing for other targets or outside loops.
spec fn loop_edge_of(target: usize, loops: Seq<LoopCtx>) -> Option<StructuredStmt> {
    if loops.len() == 0 {
        None
    } else if target == loops.last().header {
        Some(StructuredStmt::Continue)
    } else if loops.last().exit == Some(target) {
        Some(StructuredStmt::Break)
    } else {
        None
    }
}

/// `continue` for the innermost loop's header, `break` for its exit.
fn loop_edge(target: usize, loops: &Vec<LoopCtx>) -> (r: Option<StructuredStmt>)
    ensures
        r == loop_edge_of(target, loops@),
{
    if loops.len() == 0 {
        return None;
    }
    let inner = loops[loops.len() - 1];
    assert(inner == loops@.last());
    if target == inner.header {
        Some(StructuredStmt::Continue)
    } else if inner.exit == Some(target) {
        Some(StructuredStmt::Break)
    } else {
        None
    }
}

/// Records `label` as a `goto` target.
fn note_goto(st: &mut EmitState, label: usize)
    ensures
        final(st).emitted == old(st).emitted,
        final(st).goto_targets@ == (if old(st).goto_targets@.contains(label) {
            old(st).goto_targets@
        } else {
            old(st).goto_targets@.push(label)
        }),
{
    if !contains_usize(&st.goto_targets, label) {
        st.goto_targets.push(label);
    }
}

/// A `goto` to block `target`'s start.
fn goto_block(ctx: &Ctx, st: &mut EmitState, target: usize) -> (r: StructuredStmt)
    ensures
        final(st).emitted == old(st).emitted,
        ({
            let label = if target < ctx.blocks@.len() {
                ctx.blocks@[target as int].start
            } else {
                target
            };
            &&& r == StructuredStmt::Goto { target: label }
            &&& final(st).goto_targets@ == (if old(st).goto_targets@.contains(label) {
                old(st).goto_targets@
            } else {
                old(st).goto_targets@.push(label)
            })
        }),
{
    let label = if target < ctx.blocks.len() {
        ctx.blocks[target].start
    } else {
        target
    };
    note_goto(st, label);
    StructuredStmt::Goto { target: label }
}

/// A `goto` to the block holding instruction `target`.
fn goto_instr(ctx: &Ctx, st: &mut EmitState, target: usize) -> (r: StructuredStmt)
    ensures
        final(st).emitted == old(st).emitted,
{
    let label = label_start(ctx.blocks, target);
    note_goto(st, label);
    StructuredStmt::Goto { target: label }
}

/// A value-carrying `goto` to the block holding instruction `target`.
fn stack_goto_instr(ctx: &Ctx, st: &mut EmitState, target: usize, values: Vec<Expression>) -> (r: StructuredStmt)
    ensures
        final(st).emitted == old(st).emitted,
{
    let label = label_start(ctx.blocks, target);
    note_goto(st, label);
    StructuredStmt::StackGoto { target: label, values }
}

/// Structures the region that starts at `entry`, up to `stop` or an
/// already-emitted block.
fn emit_region(
    ctx: &Ctx,
    st: &mut EmitState,
    entry: usize,
    stop: Option<usize>,
    loops: &Vec<LoopCtx>,
    depth: usize,
) -> (r: Vec<StructuredStmt>)
    requires
        ctx.wf(),
        old(st).emitted@.len() == ctx.blocks@.len(),
    ensures
        grows(old(st).emitted@, final(st).emitted@),
        (depth <= MAX_DEPTH && stop != Some(entry) && fresh_block(ctx, old(st).emitted@, loops@, entry as int))
            ==> opens_with_block(ctx, r@, entry as int),
        depth > MAX_DEPTH ==> r@ == seq![StructuredStmt::Goto { target: block_label(ctx, entry) }],
    decreases MAX_DEPTH + 1 - depth, 4nat,
{
    let mut out: Vec<StructuredStmt> = Vec::new();
    let mut cur = entry;
    if depth > MAX_DEPTH {
        out.push(goto_block(ctx, st, cur));
        return out;
    }
    let ghost start = st.emitted@;
    let ghost opening = stop != Some(entry) && fresh_block(ctx, start, loops@, entry as int);
    let ghost mut opened: Seq<StructuredStmt> = Seq::empty();
    loop
        invariant
            ctx.wf(),
            depth <= MAX_DEPTH,
            st.emitted@.len() == ctx.blocks@.len(),
            grows(start, st.emitted@),
            opening == (stop != Some(entry) && fresh_block(ctx, start, loops@, entry as int)),
            opening ==> ((out@.len() == 0 && cur == entry && st.emitted@ == start) || (opens_with_block(
                ctx,
                opened,
                entry as int,
            ) && opened.len() <= out@.len() && forall|k: int| 0 <= k < opened.len() ==> out@[k] == opened[k])),
        ensures
            grows(start, st.emitted@),
            opening ==> (opens_with_block(ctx, opened, entry as int) && opened.len() <= out@.len() && forall|k: int|
                0 <= k < opened.len() ==> out@[k] == opened[k]),
        decreases count_false(st.emitted@),
    {
        if stop == Some(cur) || cur >= ctx.blocks.len() {
            break;
        }
        if let Some(edge) = loop_edge(cur, loops) {
            out.push(edge);
            break;
        }
        if st.emitted[cur] {
            out.push(goto_block(ctx, st, cur));
            break;
        }
        let ghost before = st.emitted@;
        let in_own_loop = loops.len() > 0 && loops[loops.len() - 1].header == cur;
        if ctx.loops.headers[cur] && !in_own_loop {
            match emit_loop(ctx, st, cur, loops, depth) {
                Some((stmt, next)) => {
                    out.push(stmt);
                    proof {
                        lemma_count_false_grows(before, st.emitted@);
                        assert(grows(start, st.emitted@)) by {
                            assert forall|q: int| 0 <= q < start.len() && #[trigger] start[q] implies st.emitted@[q] by {
                                assert(before[q]);
                            }
                        }
                    }
                    match next {
                        Some(nx) => {
                            cur = nx;
                            continue;
                        },
                        None => break,
                    }
                },
                None => {},
            }
            out.push(goto_block(ctx, st, cur));
            proof {
                assert(grows(start, st.emitted@)) by {
                    assert forall|q: int| 0 <= q < start.len() && #[trigger] start[q] implies st.emitted@[q] by {
                        assert(before[q]);
                    }
                }
            }
            break;
        }
        let ghost first = out@.len() == 0 && cur == entry && st.emitted@ == start;
        let ghost out_before = out@;
        st.emitted.set(cur, true);
        let ghost marked = st.emitted@;
        let block = &ctx.blocks[cur];
        if contains_usize(ctx.label_targets, block.start) {
            out.push(StructuredStmt::Label { target: block.start });
        }
        let ghost lab: int = label_count(ctx, cur as int);
        let ghost out0 = out@;
        let mut i: usize = 0;
        proof {
            assert(block.statements@.take(0) =~= Seq::<RecoveredStmt>::empty());
        }
        while i < block.statements.len()
            invariant
                i <= block.statements@.len(),
                out0.len() <= out@.len(),
                forall|k: int| 0 <= k < out0.len() ==> out@[k] == out0[k],
                first ==> out0.len() == lab && (lab == 1 ==> out0[0] == (StructuredStmt::Label {
                    target: block.start,
                })),
                first ==> out@.len() == lab + plain_stmts(block.statements@.take(i as int)).len(),
                first ==> forall|k: int|
                    0 <= k < plain_stmts(block.statements@.take(i as int)).len() ==> converts_to(
                        plain_stmts(block.statements@.take(i as int))[k],
                        #[trigger] out@[lab + k],
                    ),
            decreases block.statements@.len() - i,
        {
            let ghost before_push = out@;
            proof {
                assert(block.statements@.take(i + 1).drop_last() =~= block.statements@.take(i as int));
                assert(block.statements@.take(i + 1).last() == block.statements@[i as int]);
            }
            if let Some(s) = convert_stmt(&block.statements[i]) {
                out.push(s);
            }
            proof {
                if first {
                    let pt = plain_stmts(block.statements@.take(i as int));
                    let pn = plain_stmts(block.statements@.take(i + 1));
                    assert forall|k: int| 0 <= k < pn.len() implies converts_to(pn[k], #[trigger] out@[lab + k]) by {
                        if k < pt.len() {
                            assert(pn[k] == pt[k]);
                            assert(out@[lab + k] == before_push[lab + k]);
                        }
                    }
                }
            }
            i = i + 1;
        }
        proof {
            assert(block.statements@.take(i as int) =~= block.statements@);
            if first {
                assert(opens_plain(ctx, out@, entry as int));
            } else if opening {
                assert forall|k: int| 0 <= k < opened.len() implies out@[k] == opened[k] by {
                    assert(out@[k] == out0[k]);
                    assert(out0[k] == out_before[k]);
                }
            }
        }
        let ghost plain_out = out@;
        if block.predecessors.len() == 0 && block.statements.len() == 1 {
            proof {
                if first && !(block.statements@[0] is Return) {
                    assert forall|k: int| !#[trigger] first_return_at(block.statements@, k) by {
                        if k == 0 {
                            assert(!(block.statements@[0] is Return));
                        }
                    }
                    assert(opens_with_block(ctx, out@, entry as int));
                    opened = out@;
                }
            }
            match &block.statements[0] {
                RecoveredStmt::Goto(target) => {
                    out.push(goto_instr(ctx, st, *target));
                    proof {
                        lemma_count_false_grows(before, st.emitted@);
                        assert(grows(start, st.emitted@)) by {
                            assert forall|q: int| 0 <= q < start.len() && #[trigger] start[q] implies st.emitted@[q] by {
                                assert(before[q]);
                            }
                        }
                    }
                    break;
                },
                RecoveredStmt::GotoStack { target, values } => {
                    out.push(stack_goto_instr(ctx, st, *target, values.clone()));
                    proof {
                        assert(grows(start, st.emitted@)) by {
                            assert forall|q: int| 0 <= q < start.len() && #[trigger] start[q] implies st.emitted@[q] by {
                                assert(before[q]);
                            }
                        }
                    }
                    break;
                },
                _ => {},
            }
        }
        let (mut term, next) = emit_terminator(ctx, st, cur, stop, loops, depth);
        let ghost term0 = term@;
        out.append(&mut term);
        proof {
            if first {
                let bs = block.statements@;
                assert forall|k: int| 0 <= k < plain_out.len() implies out@[k] == plain_out[k] by {}
                assert(opens_plain(ctx, out@, entry as int)) by {
                    let ps = plain_stmts(bs);
                    assert forall|k: int| 0 <= k < ps.len() implies converts_to(ps[k], #[trigger] out@[lab + k]) by {
                        assert(converts_to(ps[k], plain_out[lab + k]));
                    }
                    if lab == 1 {
                        assert(out@[0] == plain_out[0]);
                    }
                }
                assert(returns_as_block(ctx, out@, entry as int)) by {
                    let at = lab + plain_stmts(bs).len();
                    assert forall|i: int| #[trigger] first_return_at(bs, i) implies at < out@.len() && (out@[at] matches StructuredStmt::Return {
                        value,
                    } && copy_of_opt(bs[i]->Return_0, value)) by {
                        assert(term0.len() == 1);
                        assert(out@[at] == term0[0]);
                    }
                }
                opened = out@;
            }
            assert(!before[cur as int] && marked[cur as int]);
            assert(grows(before, marked));
            assert(grows(before, st.emitted@)) by {
                assert forall|q: int| 0 <= q < before.len() && #[trigger] before[q] implies st.emitted@[q] by {
                    assert(marked[q]);
                }
            }
            assert(st.emitted@[cur as int]);
            lemma_count_false_grows(before, st.emitted@);
            assert(grows(start, st.emitted@)) by {
                assert forall|q: int| 0 <= q < start.len() && #[trigger] start[q] implies st.emitted@[q] by {
                    assert(before[q]);
                }
            }
        }
        match next {
            Some(nx) => {
                cur = nx;
            },
            None => break,
        }
    }
    proof {
        if opening {
            lemma_opens_prefix(ctx, opened, out@, entry as int);
        }
    }
    out
}

/// The statements that end block `cur` (a return, a value-carrying jump, a
/// switch or an `if`), and the block where linear emission goes on.
fn emit_terminator(
    ctx: &Ctx,
    st: &mut EmitState,
    cur: usize,
    stop: Option<usize>,
    loops: &Vec<LoopCtx>,
    depth: usize,
) -> (r: (Vec<StructuredStmt>, Option<usize>))
    requires
        ctx.wf(),
        old(st).emitted@.len() == ctx.blocks@.len(),
        cur < ctx.blocks@.len(),
        depth <= MAX_DEPTH,
    ensures
        grows(old(st).emitted@, final(st).emitted@),
        forall|i: int|
            #[trigger] first_return_at(ctx.blocks@[cur as int].statements@, i) ==> (r.0@.len() == 1 && (r.0@[0] matches StructuredStmt::Return {
                value,
            } && copy_of_opt(ctx.blocks@[cur as int].statements@[i]->Return_0, value)) && r.1 is None),
        (two_way(ctx, cur as int) && kept_as_is(ctx, ctx.blocks@[cur as int].successors@[1] as int)) ==> (r.0@.len()
            == 1 && (r.0@[0] matches StructuredStmt::If { then_body, else_body, .. } && arm_leads_to(
            ctx,
            loops@,
            then_body@,
            r.1,
            ctx.blocks@[cur as int].successors@[0],
        ) && arm_leads_to(ctx, loops@, else_stmts(else_body), r.1, ctx.blocks@[cur as int].successors@[1]))),
        conditional_fresh(ctx, old(st).emitted@, loops@, cur as int, depth as int) ==> (r.0@.len() == 1
            && (r.0@[0] matches StructuredStmt::If { then_body, .. } && (then_body@.len() == 0
            || opens_with_block(ctx, then_body@, ctx.blocks@[cur as int].successors@[0] as int)))),
    decreases MAX_DEPTH + 1 - depth, 2nat,
{
    let block = &ctx.blocks[cur];
    let mut i: usize = 0;
    while i < block.statements.len()
        invariant
            cur < ctx.blocks@.len(),
            *block == ctx.blocks@[cur as int],
            i <= block.statements@.len(),
            forall|j: int| 0 <= j < i ==> !(#[trigger] block.statements@[j] is Return),
        decreases block.statements@.len() - i,
    {
        if let RecoveredStmt::Return(v) = &block.statements[i] {
            let value = copy_opt_expr(v);
            let r = vec![StructuredStmt::Return { value }];
            proof {
                assert(first_return_at(block.statements@, i as int));
                assert forall|k: int| #[trigger] first_return_at(block.statements@, k) implies k == i by {
                    if k < i {
                        assert(!(block.statements@[k] is Return));
                    } else if k > i {
                        assert(!(block.statements@[i as int] is Return));
                    }
                }
            }
            return (r, None);
        }
        i = i + 1;
    }
    proof {
        assert forall|k: int| !#[trigger] first_return_at(block.statements@, k) by {
            if 0 <= k < block.statements@.len() {
                assert(!(block.statements@[k] is Return));
            }
        }
    }
    let mut i: usize = 0;
    while i < block.statements.len()
        invariant
            st.emitted == old(st).emitted,
            cur < ctx.blocks@.len(),
            *block == ctx.blocks@[cur as int],
            forall|k: int| !#[trigger] first_return_at(block.statements@, k),
        decreases block.statements@.len() - i,
    {
        if let RecoveredStmt::GotoStack { target, values } = &block.statements[i] {
            let g = stack_goto_instr(ctx, st, *target, values.clone());
            return (vec![g], None);
        }
        i = i + 1;
    }
    if let Some((discriminant, cases)) = switch_of(block) {
        return emit_switch(ctx, st, cur, &discriminant, &cases, loops, depth);
    }
    if block.is_conditional_branch && block.successors.len() >= 2 {
        if let Some(condition) = &block.branch_condition {
            let condition = condition.clone();
            let true_target = block.successors[0];
            let raw_false_target = block.successors[1];
            let false_target = if ctx.options.fold_branch_trampolines {
                match branch_trampoline_target(ctx, raw_false_target) {
                    Some(t) => t,
                    None => raw_false_target,
                }
            } else {
                raw_false_target
            };
            if is_shared_forward_continuation(ctx, st, cur, true_target, false_target, loops) {
                let ghost before = st.emitted@;
                if ctx.options.fold_branch_trampolines && raw_false_target != false_target
                    && raw_false_target < st.emitted.len() {
                    st.emitted.set(raw_false_target, true);
                    proof {
                        assert(grows(before, st.emitted@));
                    }
                }
                let then_body = emit_arm(ctx, st, true_target, Some(false_target), loops, depth);
                let stmt = StructuredStmt::If { condition, then_body, else_body: None };
                return (vec![stmt], Some(false_target));
            }
            let join = match stop {
                Some(s) => if contains_usize(&block.successors, s) {
                    Some(s)
                } else {
                    ipdom_of(ctx, cur)
                },
                None => ipdom_of(ctx, cur),
            };
            let ghost before = st.emitted@;
            let then_body = emit_arm(ctx, st, true_target, join, loops, depth);
            let ghost mid = st.emitted@;
            let else_body = emit_arm(ctx, st, false_target, join, loops, depth);
            proof {
                assert(grows(before, st.emitted@)) by {
                    assert forall|q: int| 0 <= q < before.len() && #[trigger] before[q] implies st.emitted@[q] by {
                        assert(mid[q]);
                    }
                }
            }
            let stmt = StructuredStmt::If {
                condition,
                then_body,
                else_body: if else_body.len() == 0 {
                    None
                } else {
                    Some(else_body)
                },
            };
            return (vec![stmt], join);
        }
    }
    let next = if block.successors.len() > 0 {
        Some(block.successors[0])
    } else {
        None
    };
    (Vec::new(), next)
}

/// The false arm continues after the `if`: it starts after the true arm,
/// later than the branch, and is not yet emitted or a loop edge.
fn is_shared_forward_continuation(
    ctx: &Ctx,
    st: &EmitState,
    cur: usize,
    true_target: usize,
    false_target: usize,
    loops: &Vec<LoopCtx>,
) -> (r: bool)
    requires
        st.emitted@.len() == ctx.blocks@.len(),
    ensures
        r == (false_target < ctx.blocks@.len() && true_target < ctx.blocks@.len() && false_target > cur
            && ctx.blocks@[true_target as int].start < ctx.blocks@[false_target as int].start
            && !st.emitted@[false_target as int] && loop_edge_of(false_target, loops@) is None),
{
    if false_target >= ctx.blocks.len() || true_target >= ctx.blocks.len() {
        return false;
    }
    false_target > cur && ctx.blocks[true_target].start < ctx.blocks[false_target].start
        && !st.emitted[false_target] && loop_edge(false_target, loops).is_none()
}

/// Where a block that only jumps on leads.
fn branch_trampoline_target(ctx: &Ctx, block_index: usize) -> (r: Option<usize>)
    ensures
        (block_index < ctx.blocks@.len() && ctx.blocks@[block_index as int].statements@.len() == 1
            && ctx.blocks@[block_index as int].statements@[0] is Goto) ==> ({
            let t = ctx.blocks@[block_index as int].statements@[0]->Goto_0;
            &&& r matches Some(b) ==> b < ctx.blocks@.len() && ctx.blocks@[b as int].start <= t
                < ctx.blocks@[b as int].end && forall|q: int|
                0 <= q < b ==> !((#[trigger] ctx.blocks@[q]).start <= t < ctx.blocks@[q].end)
            &&& r is None ==> forall|q: int|
                0 <= q < ctx.blocks@.len() ==> !((#[trigger] ctx.blocks@[q]).start <= t < ctx.blocks@[q].end)
        }),
        !(block_index < ctx.blocks@.len() && ctx.blocks@[block_index as int].statements@.len() == 1
            && ctx.blocks@[block_index as int].statements@[0] is Goto) ==> r is None,
{
    if block_index >= ctx.blocks.len() {
        return None;
    }
    let stmts = &ctx.blocks[block_index].statements;
    if stmts.len() != 1 {
        return None;
    }
    match &stmts[0] {
        RecoveredStmt::Goto(target) => block_at_instr(ctx.blocks, *target),
        _ => None,
    }
}

/// One arm of an `if`, bounded by the join: a loop edge becomes
/// `break`/`continue`, the join itself an empty arm, an emitted block a
/// `goto`.
fn emit_arm(
    ctx: &Ctx,
    st: &mut EmitState,
    target: usize,
    join: Option<usize>,
    loops: &Vec<LoopCtx>,
    depth: usize,
) -> (r: Vec<StructuredStmt>)
    requires
        ctx.wf(),
        old(st).emitted@.len() == ctx.blocks@.len(),
        depth <= MAX_DEPTH,
    ensures
        grows(old(st).emitted@, final(st).emitted@),
        (depth + 1 <= MAX_DEPTH && join != Some(target) && fresh_block(ctx, old(st).emitted@, loops@, target as int))
            ==> opens_with_block(ctx, r@, target as int),
        (join == Some(target) && loop_edge_of(target, loops@) is None) ==> r@.len() == 0,
        arm_leads_to(ctx, loops@, r@, join, target),
    decreases MAX_DEPTH + 1 - depth, 0nat,
{
    if let Some(edge) = loop_edge(target, loops) {
        let r = vec![edge];
        assert(r@ =~= seq![edge]);
        return r;
    }
    if join == Some(target) {
        return Vec::new();
    }
    if target >= ctx.blocks.len() || st.emitted[target] {
        let g = goto_block(ctx, st, target);
        let r = vec![g];
        assert(r@ =~= seq![g]);
        return r;
    }
    emit_region(ctx, st, target, join, loops, depth + 1)
}

/// A `while (true)` for the loop at `header` and the block after it; `None`
/// when the loop has several exits.
fn emit_loop(ctx: &Ctx, st: &mut EmitState, header: usize, loops: &Vec<LoopCtx>, depth: usize) -> (r:
    Option<(StructuredStmt, Option<usize>)>)
    requires
        ctx.wf(),
        old(st).emitted@.len() == ctx.blocks@.len(),
        header < ctx.blocks@.len(),
        depth <= MAX_DEPTH,
    ensures
        grows(old(st).emitted@, final(st).emitted@),
        r is Some ==> final(st).emitted@[header as int],
    decreases MAX_DEPTH + 1 - depth, 3nat,
{
    let exit = match ctx.loops.exit[header] {
        Some(LoopExit::Single(e)) => Some(e),
        Some(LoopExit::NoExit) => None,
        _ => return None,
    };
    let mut inner = loops.clone();
    inner.push(LoopCtx { header, exit });
    let ghost before = st.emitted@;
    st.emitted.set(header, true);
    let ghost marked = st.emitted@;
    let mut body: Vec<StructuredStmt> = Vec::new();
    let block = &ctx.blocks[header];
    let mut i: usize = 0;
    while i < block.statements.len()
        decreases block.statements@.len() - i,
    {
        if let Some(s) = convert_stmt(&block.statements[i]) {
            body.push(s);
        }
        i = i + 1;
    }
    let (mut term, next) = emit_terminator(ctx, st, header, None, &inner, depth);
    body.append(&mut term);
    let ghost mid = st.emitted@;
    if let Some(nx) = next {
        if exit != Some(nx) {
            let mut rest = emit_region(ctx, st, nx, None, &inner, depth + 1);
            body.append(&mut rest);
        }
    }
    proof {
        assert(grows(before, st.emitted@)) by {
            assert forall|q: int| 0 <= q < before.len() && #[trigger] before[q] implies st.emitted@[q] by {
                assert(marked[q]);
                assert(mid[q]);
            }
        }
        assert(marked[header as int]);
        assert(mid[header as int]);
    }
    Some((StructuredStmt::While { body }, exit))
}

/// A structured switch: one case per table entry (a case that shares the
/// next one's body falls through), the no-match block as default when the
/// bytecode has one, continuing at the join.
fn emit_switch(
    ctx: &Ctx,
    st: &mut EmitState,
    cur: usize,
    discriminant: &Expression,
    cases: &Vec<(i32, usize)>,
    loops: &Vec<LoopCtx>,
    depth: usize,
) -> (r: (Vec<StructuredStmt>, Option<usize>))
    requires
        ctx.wf(),
        old(st).emitted@.len() == ctx.blocks@.len(),
        cur < ctx.blocks@.len(),
        depth <= MAX_DEPTH,
    ensures
        grows(old(st).emitted@, final(st).emitted@),
    decreases MAX_DEPTH + 1 - depth, 1nat,
{
    let ghost start = st.emitted@;
    let join = ipdom_of(ctx, cur);
    let mut default_body: Option<Vec<StructuredStmt>> = None;
    if let Some(entry) = block_at_instr(ctx.blocks, ctx.blocks[cur].end) {
        let mut is_case_target = false;
        let mut c: usize = 0;
        while c < cases.len()
            decreases cases@.len() - c,
        {
            if block_at_instr(ctx.blocks, cases[c].1) == Some(entry) {
                is_case_target = true;
            }
            c = c + 1;
        }
        if join != Some(entry) && !is_case_target {
            default_body = Some(emit_arm(ctx, st, entry, join, loops, depth));
        }
    }
    let ghost after_default = st.emitted@;
    assert(grows(start, after_default));
    let mut entries: Vec<(i32, usize)> = Vec::new();
    let mut c: usize = 0;
    while c < cases.len()
        invariant
            st.emitted@ == after_default,
            grows(start, after_default),
            start == old(st).emitted@,
            after_default.len() == ctx.blocks@.len(),
        decreases cases@.len() - c,
    {
        match block_at_instr(ctx.blocks, cases[c].1) {
            Some(entry) => entries.push((cases[c].0, entry)),
            None => {
                let g = goto_block(ctx, st, cur);
                proof {
                    assert(grows(start, st.emitted@));
                }
                return (vec![g], None);
            },
        }
        c = c + 1;
    }
    let mut out_cases: Vec<SwitchCaseStmt> = Vec::new();
    let mut index: usize = 0;
    while index < entries.len()
        invariant
            ctx.wf(),
            depth <= MAX_DEPTH,
            st.emitted@.len() == ctx.blocks@.len(),
            grows(start, st.emitted@),
        decreases entries@.len() - index,
    {
        let (value, entry) = entries[index];
        if index + 1 < entries.len() && entries[index + 1].1 == entry {
            out_cases.push(SwitchCaseStmt { value, body: Vec::new(), fallthrough: true, break_after: false });
        } else {
            let ghost before = st.emitted@;
            let body = emit_arm(ctx, st, entry, join, loops, depth);
            proof {
                assert(grows(start, st.emitted@)) by {
                    assert forall|q: int| 0 <= q < start.len() && #[trigger] start[q] implies st.emitted@[q] by {
                        assert(before[q]);
                    }
                }
            }
            let has_following_case_or_default = index + 1 < entries.len() || default_body.is_some();
            let break_after = (!stmts_terminate(body.as_slice()) && has_following_case_or_default)
                || dead_break_after_case_body(ctx, entry, join);
            out_cases.push(SwitchCaseStmt { value, body, fallthrough: false, break_after });
        }
        index = index + 1;
    }
    let stmt = StructuredStmt::Switch { expr: discriminant.clone(), cases: out_cases, default_body };
    (vec![stmt], join)
}

/// Whether the case body starting at `entry` reaches a return followed by
/// a dead `break` to the join.
fn dead_break_after_case_body(ctx: &Ctx, entry: usize, join: Option<usize>) -> (r: bool) {
    let n = ctx.blocks.len();
    let mut seen: Vec<bool> = Vec::new();
    let mut k: usize = 0;
    while k < n
        invariant
            k <= n,
            seen@.len() == k,
        decreases n - k,
    {
        seen.push(false);
        k = k + 1;
    }
    let mut cur = entry;
    loop
        invariant
            seen@.len() == n,
            n == ctx.blocks@.len(),
        decreases count_false(seen@),
    {
        if cur >= n || seen[cur] {
            return false;
        }
        let ghost before = seen@;
        seen.set(cur, true);
        proof {
            crate::transpile::graph::lemma_count_false_set(before, cur as int);
        }
        let block = &ctx.blocks[cur];
        let mut saw_return = false;
        let mut any_return = false;
        let mut i: usize = 0;
        while i < block.statements.len()
            decreases block.statements@.len() - i,
        {
            match &block.statements[i] {
                RecoveredStmt::Goto(target) => {
                    if saw_return {
                        return dead_break_target_matches(ctx, *target, join);
                    }
                },
                RecoveredStmt::Return(_) => {
                    saw_return = true;
                    any_return = true;
                },
                _ => {},
            }
            i = i + 1;
        }
        if any_return {
            if block.successors.len() == 1 {
                return match join {
                    None => true,
                    Some(j) => block.successors[0] == j,
                };
            }
            let next_block = match block_at_instr(ctx.blocks, block.end) {
                Some(b) => b,
                None => return false,
            };
            let next_stmts = &ctx.blocks[next_block].statements;
            if next_stmts.len() == 1 {
                if let RecoveredStmt::Goto(target) = &next_stmts[0] {
                    return dead_break_target_matches(ctx, *target, join);
                }
            }
            return false;
        }
        if block.successors.len() != 1 {
            return false;
        }
        cur = block.successors[0];
    }
}

/// A dead `break` to `target` matches the join: there is none, or the
/// target's block is the join.
fn dead_break_target_matches(ctx: &Ctx, target: usize, join: Option<usize>) -> (r: bool) {
    match join {
        None => true,
        Some(j) => block_at_instr(ctx.blocks, target) == Some(j),
    }
}

/// One structuring pass: the region from the entry, then every block the
/// walk never reached, in order. Returns the statements and the labels the
/// `goto`s name.
fn emit_structured_pass(
    blocks: &[Block],
    ipdom: Vec<Option<usize>>,
    loops: LoopInfo,
    label_targets: &Vec<usize>,
    options: StructureOptions,
) -> (r: (Vec<StructuredStmt>, Vec<usize>))
    requires
        ipdom@.len() == blocks@.len(),
        loops.headers@.len() == blocks@.len(),
        loops.exit@.len() == blocks@.len(),
{
    let n = blocks.len();
    let ctx = Ctx { blocks, ipdom, loops, label_targets, options };
    let mut emitted: Vec<bool> = Vec::new();
    let mut k: usize = 0;
    while k < n
        invariant
            k <= n,
            emitted@.len() == k,
        decreases n - k,
    {
        emitted.push(false);
        k = k + 1;
    }
    let mut st = EmitState { emitted, goto_targets: Vec::new() };
    let no_loops: Vec<LoopCtx> = Vec::new();
    let mut out = emit_region(&ctx, &mut st, 0, None, &no_loops, 0);
    let mut b: usize = 0;
    while b < n
        invariant
            ctx.wf(),
            n == ctx.blocks@.len(),
            st.emitted@.len() == n,
        decreases n - b,
    {
        if !st.emitted[b] {
            let mut more = emit_region(&ctx, &mut st, b, None, &no_loops, 0);
            out.append(&mut more);
        }
        b = b + 1;
    }
    (out, st.goto_targets)
}

/// Structures the blocks with the given options. Blocks whose jumps carry
/// stack values get the linear form instead, with the reason
/// `stack_goto`; when a first pass leaves `goto`s, a second pass labels
/// their targets.
pub fn structure_with_options(blocks: &[Block], options: StructureOptions) -> (r: StructureResult)
    ensures
        r.fallback_reason is Some <==> (blocks@.len() > 0 && has_stack_goto_spec(blocks@)),
        r.fallback_reason matches Some(reason) ==> reason@ == "stack_goto"@,
        r.fallback_reason is Some ==> linear_form(blocks@, r.statements@),
{
    let n = blocks.len();
    if n == 0 {
        return StructureResult { statements: Vec::new(), fallback_reason: None };
    }
    if n >= usize::MAX - 8 {
        let statements = structure_linear(blocks);
        let reason = if has_stack_goto(blocks) {
            Some(string_from("stack_goto"))
        } else {
            None
        };
        return StructureResult { statements, fallback_reason: reason };
    }
    let mut succ: Vec<Vec<usize>> = Vec::new();
    let mut pred: Vec<Vec<usize>> = Vec::new();
    let mut b: usize = 0;
    while b < n
        invariant
            b <= n,
            n == blocks@.len(),
            succ@.len() == b,
            pred@.len() == b,
            lists_below(succ@, n as int),
            lists_below(pred@, n as int),
        decreases n - b,
    {
        succ.push(filter_below(&blocks[b].successors, n));
        pred.push(filter_below(&blocks[b].predecessors, n));
        proof {
            assert forall|a: int, c: int| 0 <= a < succ@.len() && 0 <= c < succ@[a]@.len() implies #[trigger] succ@[a]@[c] < n by {}
            assert forall|a: int, c: int| 0 <= a < pred@.len() && 0 <= c < pred@[a]@.len() implies #[trigger] pred@[a]@[c] < n by {}
        }
        b = b + 1;
    }
    let idom = dominators(n, 0, &pred, &succ);
    let ipdom = post_dominators(n, &succ);
    let loops = detect_loops(&succ, &pred, &idom);
    if has_stack_goto(blocks) {
        return StructureResult {
            statements: structure_linear(blocks),
            fallback_reason: Some(string_from("stack_goto")),
        };
    }
    let ipdom2 = ipdom.clone();
    let loops2 = LoopInfo { headers: loops.headers.clone(), exit: loops.exit.clone() };
    let no_labels: Vec<usize> = Vec::new();
    let (first, goto_targets) = emit_structured_pass(blocks, ipdom, loops, &no_labels, options);
    if contains_goto(&first) && goto_targets.len() > 0 {
        let (second, _) = emit_structured_pass(blocks, ipdom2, loops2, &goto_targets, options);
        return StructureResult { statements: second, fallback_reason: None };
    }
    StructureResult { statements: first, fallback_reason: None }
}

/// The entries of `v` below `n`, in order.
pub open spec fn entries_below(v: Seq<usize>, n: usize) -> Seq<usize>
    decreases v.len(),
{
    if v.len() == 0 {
        v
    } else if v.last() < n {
        entries_below(v.drop_last(), n).push(v.last())
    } else {
        entries_below(v.drop_last(), n)
    }
}

/// The entries of `v` below `n`, in order.
fn filter_below(v: &Vec<usize>, n: usize) -> (r: Vec<usize>)
    ensures
        forall|k: int| 0 <= k < r@.len() ==> r@[k] < n,
        r@ == entries_below(v@, n),
{
    let mut out: Vec<usize> = Vec::new();
    let mut i: usize = 0;
    while i < v.len()
        invariant
            i <= v@.len(),
            forall|k: int| 0 <= k < out@.len() ==> out@[k] < n,
            out@ == entries_below(v@.take(i as int), n),
        decreases v@.len() - i,
    {
        proof {
            assert(v@.take(i + 1).drop_last() =~= v@.take(i as int));
            assert(v@.take(i + 1).last() == v@[i as int]);
        }
        if v[i] < n {
            out.push(v[i]);
        }
        i = i + 1;
    }
    proof {
        assert(v@.take(i as int) =~= v@);
    }
    out
}

/// Structures the blocks, folding branch trampolines.
pub fn structure_with_report(blocks: &[Block]) -> (r: StructureResult)
    ensures
        r.fallback_reason is Some <==> (blocks@.len() > 0 && has_stack_goto_spec(blocks@)),
        r.fallback_reason matches Some(reason) ==> reason@ == "stack_goto"@,
        r.fallback_reason is Some ==> linear_form(blocks@, r.statements@),
{
    structure_with_options(blocks, StructureOptions::aggressive())
}

/// The structured statements of the blocks; the linear form when a jump
/// carries stack values.
pub fn structure(blocks: &[Block]) -> (r: Vec<StructuredStmt>)
    ensures
        has_stack_goto_spec(blocks@) ==> linear_form(blocks@, r@),
{
    structure_with_report(blocks).statements
}

} // verus!
