//! Basic blocks and their control-flow edges, over recovered statements.
use crate::text::{chars_eq, chars_of, split_once, strip_prefix, string_of};
use crate::transpile::ast::{
    BinaryOperation, Expression, InstructionNode, NumberLiteral, OperandNode, SwitchCase, UnaryOp,
    UnaryOperation,
};
use crate::transpile::catalog::{ScriptCatalog, SignatureMap};
use crate::transpile::effects::EffectTables;
use crate::transpile::expr_recovery::{
    infer_kind, return_type_label, ExprRecovery, RecoveredStmt, ReturnValueKind,
};
use crate::transpile::exprs::{ident, is_call_of, num, pop_call_expr};
use crate::transpile::scope::NameTable;
use crate::transpile::structured::{stmt_terminates, AssignmentTarget, StructuredStmt};
use vstd::prelude::*;

verus! {

broadcast use vstd::string::group_string_axioms;

/// A basic block: instructions `start .. end`, their recovered statements
/// and the block's edges (by block index).
#[derive(Debug, Clone)]
pub struct Block {
    pub index: usize,
    pub start: usize,
    pub end: usize,
    pub statements: Vec<RecoveredStmt>,
    pub successors: Vec<usize>,
    pub predecessors: Vec<usize>,
    pub is_loop_header: bool,
    pub loop_target: Option<usize>,
    pub is_conditional_branch: bool,
    pub branch_condition: Option<Expression>,
}

impl Block {
    /// An empty block `index` starting (and ending) at `start`.
    pub fn new(index: usize, start: usize) -> (r: Self)
        ensures
            r.index == index,
            r.start == start,
            r.end == start,
            r.statements@.len() == 0,
            r.successors@.len() == 0,
            r.predecessors@.len() == 0,
            !r.is_loop_header,
            r.loop_target is None,
            !r.is_conditional_branch,
            r.branch_condition is None,
    {
        Block {
            index,
            start,
            end: start,
            statements: Vec::new(),
            successors: Vec::new(),
            predecessors: Vec::new(),
            is_loop_header: false,
            loop_target: None,
            is_conditional_branch: false,
            branch_condition: None,
        }
    }
}

/// The blocks cut `0 .. n` into consecutive non-empty ranges, numbered in
/// order, and every edge names a block.
pub open spec fn blocks_partition(blocks: Seq<Block>, n: int) -> bool {
    &&& n == 0 ==> blocks.len() == 0
    &&& n > 0 ==> blocks.len() > 0 && blocks[0].start == 0 && blocks[blocks.len() - 1].end == n
    &&& forall|i: int|
        0 <= i < blocks.len() ==> (#[trigger] blocks[i]).index == i && blocks[i].start
            < blocks[i].end
    &&& forall|i: int| 0 <= i < blocks.len() - 1 ==> (#[trigger] blocks[i]).end == blocks[i + 1].start
    &&& forall|i: int, j: int|
        0 <= i < blocks.len() && 0 <= j < blocks[i].successors@.len() ==> #[trigger] blocks[i].successors@[j]
            < blocks.len()
    &&& forall|i: int, j: int|
        0 <= i < blocks.len() && 0 <= j < blocks[i].predecessors@.len()
            ==> #[trigger] blocks[i].predecessors@[j] < blocks.len()
}

/// How often `x` occurs in `s`.
pub open spec fn occurrences(s: Seq<usize>, x: int) -> nat
    decreases s.len(),
{
    if s.len() == 0 {
        0
    } else {
        occurrences(s.drop_last(), x) + if s.last() == x {
            1nat
        } else {
            0nat
        }
    }
}

proof fn lemma_occurrences_push(s: Seq<usize>, v: usize, x: int)
    ensures
        occurrences(s.push(v), x) == occurrences(s, x) + if v == x {
            1nat
        } else {
            0nat
        },
{
    assert(s.push(v).drop_last() =~= s);
}

/// Successors and predecessors mirror each other: block `c` follows block
/// `a` exactly as often as `a` precedes `c`.
pub open spec fn edges_mirrored(blocks: Seq<Block>) -> bool {
    forall|a: int, c: int|
        0 <= a < blocks.len() && 0 <= c < blocks.len() ==> #[trigger] occurrences(blocks[a].successors@, c)
            == occurrences(blocks[c].predecessors@, a)
}

proof fn lemma_mirror_step(
    s0: Seq<Vec<usize>>,
    p0: Seq<Vec<usize>>,
    s1: Seq<Vec<usize>>,
    p1: Seq<Vec<usize>>,
    from: int,
    to: int,
    count: int,
)
    requires
        s0.len() == count,
        p0.len() == count,
        0 <= from < count,
        0 <= to < count,
        count <= usize::MAX,
        s1.len() == count,
        p1.len() == count,
        forall|k: int| 0 <= k < count && k != from ==> s1[k] == s0[k],
        s1[from]@ == s0[from]@.push(to as usize),
        forall|k: int| 0 <= k < count && k != to ==> p1[k] == p0[k],
        p1[to]@ == p0[to]@.push(from as usize),
        forall|a: int, c: int|
            0 <= a < count && 0 <= c < count ==> #[trigger] occurrences(s0[a]@, c) == occurrences(p0[c]@, a),
    ensures
        forall|a: int, c: int|
            0 <= a < count && 0 <= c < count ==> #[trigger] occurrences(s1[a]@, c) == occurrences(p1[c]@, a),
{
    assert forall|a: int, c: int| 0 <= a < count && 0 <= c < count implies #[trigger] occurrences(s1[a]@, c)
        == occurrences(p1[c]@, a) by {
        assert(occurrences(s0[a]@, c) == occurrences(p0[c]@, a));
        lemma_occurrences_push(s0[from]@, to as usize, c);
        lemma_occurrences_push(p0[to]@, from as usize, a);
        if a == from {
            assert(s1[a]@ == s0[from]@.push(to as usize));
        } else {
            assert(s1[a]@ == s0[a]@);
        }
        if c == to {
            assert(p1[c]@ == p0[to]@.push(from as usize));
        } else {
            assert(p1[c]@ == p0[c]@);
        }
    }
}

/// Builds the blocks of an instruction stream.
pub struct CfgBuilder<'a> {
    instructions: &'a [InstructionNode],
    recovered: Vec<Option<RecoveredStmt>>,
}

/// The conditional branches.
pub open spec fn cond_flag_cmd(c: Seq<char>) -> bool {
    c == "branch_not"@ || c == "branch_if_true"@ || c == "branch_if_false"@ || c == "branch_equals"@ || c
        == "branch_less_than"@ || c == "branch_greater_than"@ || c == "branch_less_than_or_equals"@ || c
        == "branch_greater_than_or_equals"@ || c == "long_branch_not"@ || c == "long_branch_equals"@ || c
        == "long_branch_less_than"@ || c == "long_branch_greater_than"@ || c == "long_branch_less_than_or_equals"@
        || c == "long_branch_greater_than_or_equals"@
}

/// The index after `i`, wrapping to 0.
pub open spec fn next_index(i: usize) -> usize {
    if i == usize::MAX {
        0
    } else {
        (i + 1) as usize
    }
}

/// The jump targets of an instruction: the branch target (and, for a
/// conditional branch, the next instruction), or the switch targets and
/// the next instruction; none for other instructions.
pub open spec fn branch_targets_of(instr: InstructionNode) -> Option<Seq<usize>> {
    let c = instr.command@;
    let next = next_index(instr.index);
    if c == "branch"@ {
        match instr.operand {
            OperandNode::Branch(t) => Some(seq![t]),
            _ => None,
        }
    } else if cond_flag_cmd(c) {
        match instr.operand {
            OperandNode::Branch(t) => Some(seq![t, next]),
            _ => None,
        }
    } else if c == "switch"@ {
        match instr.operand {
            OperandNode::Switch(cases) => Some(cases@.map_values(|k: SwitchCase| k.target).push(next)),
            _ => None,
        }
    } else {
        None
    }
}

/// The conditional branches.
fn is_cond_flag_instr(cmd: &[char]) -> (r: bool)
    ensures
        r == cond_flag_cmd(cmd@),
{
    chars_eq(cmd, "branch_not") || chars_eq(cmd, "branch_if_true") || chars_eq(cmd, "branch_if_false")
        || chars_eq(cmd, "branch_equals") || chars_eq(cmd, "branch_less_than") || chars_eq(
        cmd,
        "branch_greater_than",
    ) || chars_eq(cmd, "branch_less_than_or_equals") || chars_eq(cmd, "branch_greater_than_or_equals")
        || chars_eq(cmd, "long_branch_not") || chars_eq(cmd, "long_branch_equals") || chars_eq(
        cmd,
        "long_branch_less_than",
    ) || chars_eq(cmd, "long_branch_greater_than") || chars_eq(
        cmd,
        "long_branch_less_than_or_equals",
    ) || chars_eq(cmd, "long_branch_greater_than_or_equals")
}

/// The jump targets of an instruction: the branch target (and, for a
/// conditional branch, the next instruction), or the switch targets and
/// the next instruction.
fn extract_branch_targets(instr: &InstructionNode) -> (r: Option<Vec<usize>>)
    ensures
        match branch_targets_of(*instr) {
            Some(t) => r matches Some(v) && v@ == t,
            None => r is None,
        },
{
    let cmd = chars_of(instr.command.as_str());
    let next = if instr.index == usize::MAX {
        0
    } else {
        instr.index + 1
    };
    if chars_eq(&cmd, "branch") {
        return match instr.operand {
            OperandNode::Branch(t) => Some(vec![t]),
            _ => None,
        };
    }
    if is_cond_flag_instr(&cmd) {
        return match instr.operand {
            OperandNode::Branch(t) => Some(vec![t, next]),
            _ => None,
        };
    }
    if chars_eq(&cmd, "switch") {
        return match &instr.operand {
            OperandNode::Switch(cases) => {
                let mut targets: Vec<usize> = Vec::new();
                let mut i: usize = 0;
                while i < cases.len()
                    invariant
                        i <= cases@.len(),
                        targets@ == cases@.take(i as int).map_values(|k: SwitchCase| k.target),
                    decreases cases@.len() - i,
                {
                    proof {
                        assert(cases@.take(i + 1) =~= cases@.take(i as int).push(cases@[i as int]));
                        assert(cases@.take(i + 1).map_values(|k: SwitchCase| k.target) =~= cases@.take(
                            i as int,
                        ).map_values(|k: SwitchCase| k.target).push(cases@[i as int].target));
                    }
                    targets.push(cases[i].target);
                    i = i + 1;
                }
                proof {
                    assert(cases@.take(i as int) =~= cases@);
                }
                targets.push(next);
                Some(targets)
            },
            _ => None,
        };
    }
    None
}

/// Whether every target is `next` (and there is one).
fn all_targets_are(targets: &Option<Vec<usize>>, next: usize) -> (r: bool)
    ensures
        r == (match *targets {
            Some(t) => t@.len() > 0 && forall|i: int| 0 <= i < t@.len() ==> t@[i] == next,
            None => false,
        }),
{
    match targets {
        Some(t) => {
            if t.len() == 0 {
                return false;
            }
            let mut i: usize = 0;
            while i < t.len()
                invariant
                    i <= t@.len(),
                    forall|j: int| 0 <= j < i ==> t@[j] == next,
                    *targets == Some(*t),
                decreases t@.len() - i,
            {
                if t[i] != next {
                    return false;
                }
                i = i + 1;
            }
            true
        },
        None => false,
    }
}

/// The index of the block starting at `target`, if any.
fn block_starting_at(leaders: &Vec<usize>, target: usize) -> (r: Option<usize>)
    ensures
        r matches Some(k) ==> k < leaders@.len(),
        match r {
            Some(k) => leaders@[k as int] == target && forall|j: int| 0 <= j < k ==> leaders@[j] != target,
            None => forall|j: int| 0 <= j < leaders@.len() ==> leaders@[j] != target,
        },
{
    let mut k: usize = 0;
    while k < leaders.len()
        invariant
            k <= leaders@.len(),
            forall|j: int| 0 <= j < k ==> leaders@[j] != target,
        decreases leaders@.len() - k,
    {
        if leaders[k] == target {
            return Some(k);
        }
        k = k + 1;
    }
    None
}

/// Appends `x` to list `i`.
fn push_at(lists: &mut Vec<Vec<usize>>, i: usize, x: usize)
    requires
        i < old(lists)@.len(),
    ensures
        final(lists)@.len() == old(lists)@.len(),
        forall|k: int| 0 <= k < final(lists)@.len() && k != i ==> final(lists)@[k] == old(lists)@[k],
        final(lists)@[i as int]@ == old(lists)@[i as int]@.push(x),
{
    let mut v = lists[i].clone();
    v.push(x);
    lists.set(i, v);
}

/// The condition under which a branch statement jumps.
pub fn branch_condition_expr(stmt: &RecoveredStmt) -> (r: Option<Expression>)
    ensures
        r is Some <==> (stmt is Branch || stmt is BranchBinary),
{
    match stmt {
        RecoveredStmt::Branch { condition, negated, .. } => {
            if *negated {
                Some(
                    Expression::UnaryOperation(
                        UnaryOperation { op: UnaryOp::Not, operand: Box::new(condition.clone()) },
                    ),
                )
            } else {
                Some(condition.clone())
            }
        },
        RecoveredStmt::BranchBinary { op, left, right, .. } => Some(
            Expression::BinaryOperation(
                BinaryOperation { op: *op, left: Box::new(left.clone()), right: Box::new(right.clone()) },
            ),
        ),
        _ => None,
    }
}

/// A name of ASCII letters, digits and `_` that starts with a letter or
/// `_`.
pub open spec fn identifier_like(s: Seq<char>) -> bool {
    &&& s.len() > 0
    &&& (s[0] == '_' || ('a' <= s[0] <= 'z') || ('A' <= s[0] <= 'Z'))
    &&& forall|i: int|
        1 <= i < s.len() ==> (#[trigger] s[i] == '_' || ('a' <= s[i] <= 'z') || ('A' <= s[i] <= 'Z')
            || ('0' <= s[i] <= '9'))
}

fn is_identifier_like(value: &[char]) -> (r: bool)
    ensures
        r == identifier_like(value@),
{
    if value.len() == 0 {
        return false;
    }
    let first = value[0];
    if !(first == '_' || ('a' <= first && first <= 'z') || ('A' <= first && first <= 'Z')) {
        return false;
    }
    let mut i: usize = 1;
    while i < value.len()
        invariant
            1 <= i <= value@.len(),
            forall|k: int|
                1 <= k < i ==> (#[trigger] value@[k] == '_' || ('a' <= value@[k] <= 'z') || ('A'
                    <= value@[k] <= 'Z') || ('0' <= value@[k] <= '9')),
        decreases value@.len() - i,
    {
        let c = value[i];
        if !(c == '_' || ('a' <= c && c <= 'z') || ('A' <= c && c <= 'Z') || ('0' <= c && c <= '9')) {
            return false;
        }
        i = i + 1;
    }
    true
}

/// The index expression of a store target written `name[index]`: `pop()`
/// for `pop()`, a number for an `i32` numeral, an identifier for an
/// identifier-like text, nothing otherwise.
pub open spec fn simple_index_ok(v: Seq<char>, r: Option<Expression>) -> bool {
    if v == "pop()"@ {
        r matches Some(e) && is_call_of(e, "pop"@, 0)
    } else if crate::text::parse_in_range(v, true, i32::MIN as int, i32::MAX as int) is Some {
        r == Some(
            Expression::NumberLiteral(
                NumberLiteral {
                    value: crate::text::parse_in_range(v, true, i32::MIN as int, i32::MAX as int)->0 as i32,
                },
            ),
        )
    } else if identifier_like(v) {
        r matches Some(e) && (e matches Expression::Identifier(i) && i.name@ == v)
    } else {
        r is None
    }
}

/// The index expression of a store target written `name[index]`: `pop()`,
/// a number or an identifier.
fn simple_target_index_expr(value: &[char]) -> (r: Option<Expression>)
    ensures
        simple_index_ok(value@, r),
{
    if chars_eq(value, "pop()") {
        return Some(pop_call_expr());
    }
    if let Some(n) = crate::text::parse_i32(value) {
        return Some(num(n));
    }
    if is_identifier_like(value) {
        return Some(ident(string_of(value)));
    }
    None
}

/// `r` is the structured form of the recovered store target `t`:
/// `array[index]` with a simple index, a plain identifier, or `t` kept as
/// written.
pub open spec fn recovered_target_ok(t: Seq<char>, r: AssignmentTarget) -> bool {
    let k = crate::text::index_of(t, '[');
    let rest = t.skip(k + 1);
    if k < t.len() && rest.len() > 0 && rest.last() == ']' {
        let idx = rest.drop_last();
        match r {
            AssignmentTarget::ArrayAccess { array, index } => array@ == t.take(k) && simple_index_ok(
                idx,
                Some(index),
            ),
            AssignmentTarget::Opaque(o) => o@ == t && simple_index_ok(idx, None),
            _ => false,
        }
    } else if identifier_like(t) {
        r matches AssignmentTarget::Identifier(n) && n@ == t
    } else {
        r matches AssignmentTarget::Opaque(o) && o@ == t
    }
}

/// The structured target of a recovered store target: `array[index]` with
/// a simple index, a plain identifier, or kept as written.
pub fn assignment_target_from_recovered(target: &str) -> (r: AssignmentTarget)
    ensures
        r is Identifier ==> identifier_like(target@),
        recovered_target_ok(target@, r),
{
    let t = chars_of(target);
    if let Some((array, rest)) = split_once(&t, '[') {
        if rest.len() > 0 && rest[rest.len() - 1] == ']' {
            let index = crate::text::slice_vec(&rest, 0, rest.len() - 1);
            if let Some(index_expr) = simple_target_index_expr(&index) {
                return AssignmentTarget::ArrayAccess { array: string_of(&array), index: index_expr };
            }
            return AssignmentTarget::Opaque(string_of(&t));
        }
    }
    if is_identifier_like(&t) {
        AssignmentTarget::Identifier(string_of(&t))
    } else {
        AssignmentTarget::Opaque(string_of(&t))
    }
}

impl<'a> CfgBuilder<'a> {
    /// One recovered statement slot per instruction.
    #[verifier::type_invariant]
    spec fn slots_match(self) -> bool {
        self.recovered@.len() == self.instructions@.len()
    }

    /// The instructions being cut into blocks.
    pub closed spec fn instructions_view(&self) -> Seq<InstructionNode> {
        self.instructions@
    }

    /// A builder over the statements recovered for build 0.
    pub fn new(
        instructions: &'a [InstructionNode],
        var_names: &NameTable,
        component_names: &NameTable,
        enum_value_names: &NameTable,
        script_catalog: &ScriptCatalog,
        script_signatures: &SignatureMap,
    ) -> (r: Self)
        ensures
            r.instructions_view() == instructions@,
    {
        Self::new_for_build(
            instructions,
            var_names,
            component_names,
            enum_value_names,
            script_catalog,
            script_signatures,
            0,
        )
    }

    /// A builder over the statements recovered for build `build`.
    pub fn new_for_build(
        instructions: &'a [InstructionNode],
        var_names: &NameTable,
        component_names: &NameTable,
        enum_value_names: &NameTable,
        script_catalog: &ScriptCatalog,
        script_signatures: &SignatureMap,
        build: u32,
    ) -> (r: Self)
        ensures
            r.instructions_view() == instructions@,
    {
        Self::new_with_effect_tables(
            instructions,
            var_names,
            component_names,
            enum_value_names,
            script_catalog,
            script_signatures,
            build,
            EffectTables::new(),
        )
    }

    /// A builder over the statements recovered for build `build`, reading
    /// stack effects from the extracted `tables` as well.
    pub fn new_with_effect_tables(
        instructions: &'a [InstructionNode],
        var_names: &NameTable,
        component_names: &NameTable,
        enum_value_names: &NameTable,
        script_catalog: &ScriptCatalog,
        script_signatures: &SignatureMap,
        build: u32,
        tables: EffectTables,
    ) -> (r: Self)
        ensures
            r.instructions_view() == instructions@,
    {
        let recovered = ExprRecovery::new_for_build(
            instructions,
            var_names,
            component_names,
            enum_value_names,
            script_catalog,
            script_signatures,
            build,
        ).with_effect_tables(tables).recover();
        CfgBuilder { instructions, recovered }
    }

    /// The block leaders, increasing: the entry, every in-range jump
    /// target other than the fall-through, and the instruction after a
    /// jump, a return or a switch that falls through to a non-`branch`.
    fn compute_leaders(&self) -> (r: Vec<usize>)
        requires
            self.instructions@.len() > 0,
        ensures
            r@.len() > 0,
            r@[0] == 0,
            forall|a: int, b: int| 0 <= a < b < r@.len() ==> r@[a] < r@[b],
            forall|a: int| 0 <= a < r@.len() ==> r@[a] < self.instructions@.len(),
    {
        let n = self.instructions.len();
        let mut is_leader: Vec<bool> = Vec::new();
        let mut k: usize = 0;
        while k < n
            invariant
                k <= n,
                is_leader@.len() == k,
                forall|j: int| 0 <= j < k ==> is_leader@[j] == (j == 0),
            decreases n - k,
        {
            is_leader.push(k == 0);
            k = k + 1;
        }
        let mut i: usize = 0;
        while i < n
            invariant
                n == self.instructions@.len(),
                is_leader@.len() == n,
                is_leader@[0],
            decreases n - i,
        {
            let instr = &self.instructions[i];
            let next = i + 1;
            let targets = extract_branch_targets(instr);
            if let Some(ts) = &targets {
                let mut j: usize = 0;
                while j < ts.len()
                    invariant
                        is_leader@.len() == n,
                        is_leader@[0],
                    decreases ts@.len() - j,
                {
                    let t = ts[j];
                    if t < n && t != next {
                        is_leader.set(t, true);
                    }
                    j = j + 1;
                }
            }
            let cmd = chars_of(instr.command.as_str());
            let split_switch_fallthrough = chars_eq(&cmd, "switch") && next < n && !chars_eq(
                &chars_of(self.instructions[next].command.as_str()),
                "branch",
            );
            let is_branch = split_switch_fallthrough || chars_eq(&cmd, "branch") || is_cond_flag_instr(
                &cmd,
            ) || chars_eq(&cmd, "return");
            if is_branch && next < n {
                let all_same = all_targets_are(&targets, next);
                if split_switch_fallthrough || !all_same {
                    is_leader.set(next, true);
                }
            }
            i = i + 1;
        }
        let mut out: Vec<usize> = Vec::new();
        let mut p: usize = 0;
        while p < n
            invariant
                p <= n,
                n == self.instructions@.len(),
                is_leader@.len() == n,
                is_leader@[0],
                forall|a: int| 0 <= a < out@.len() ==> out@[a] < p,
                forall|a: int, b: int| 0 <= a < b < out@.len() ==> out@[a] < out@[b],
                p > 0 ==> out@.len() > 0 && out@[0] == 0,
            decreases n - p,
        {
            if is_leader[p] {
                out.push(p);
            }
            p = p + 1;
        }
        out
    }

    /// The blocks with their statements, edges, loop headers and branch
    /// conditions. They cut the instructions into consecutive ranges.
    pub fn build(self) -> (r: Vec<Block>)
        ensures
            blocks_partition(r@, self.instructions_view().len() as int),
            edges_mirrored(r@),
    {
        proof {
            use_type_invariant(&self);
        }
        let n = self.instructions.len();
        if n == 0 {
            return Vec::new();
        }
        let leaders = self.compute_leaders();
        let count = leaders.len();
        let mut succs: Vec<Vec<usize>> = Vec::new();
        let mut preds: Vec<Vec<usize>> = Vec::new();
        let mut k: usize = 0;
        while k < count
            invariant
                k <= count,
                succs@.len() == k,
                preds@.len() == k,
                forall|a: int, b: int| 0 <= a < k && 0 <= b < succs@[a]@.len() ==> #[trigger] succs@[a]@[b] < count,
                forall|a: int, b: int| 0 <= a < k && 0 <= b < preds@[a]@.len() ==> #[trigger] preds@[a]@[b] < count,
                forall|a: int| 0 <= a < k ==> (#[trigger] succs@[a])@.len() == 0 && preds@[a]@.len() == 0,
            decreases count - k,
        {
            succs.push(Vec::new());
            preds.push(Vec::new());
            k = k + 1;
        }
        proof {
            assert forall|a: int, c: int| 0 <= a < count && 0 <= c < count implies #[trigger] occurrences(
                succs@[a]@,
                c,
            ) == occurrences(preds@[c]@, a) by {
                assert(succs@[a]@.len() == 0);
                assert(succs@[c]@.len() == 0);
                assert(preds@[c]@.len() == 0);
            }
        }
        let mut bi: usize = 0;
        while bi < count
            invariant
                count == leaders@.len(),
                n == self.instructions@.len(),
                forall|a: int| 0 <= a < leaders@.len() ==> leaders@[a] < n,
                forall|a: int, b: int| 0 <= a < b < leaders@.len() ==> leaders@[a] < leaders@[b],
                succs@.len() == count,
                preds@.len() == count,
                forall|a: int, b: int| 0 <= a < count && 0 <= b < succs@[a]@.len() ==> #[trigger] succs@[a]@[b] < count,
                forall|a: int, b: int| 0 <= a < count && 0 <= b < preds@[a]@.len() ==> #[trigger] preds@[a]@[b] < count,
                forall|a: int, c: int|
                    0 <= a < count && 0 <= c < count ==> #[trigger] occurrences(succs@[a]@, c) == occurrences(
                        preds@[c]@,
                        a,
                    ),
            decreases count - bi,
        {
            let start = leaders[bi];
            let end = if bi + 1 < count {
                leaders[bi + 1]
            } else {
                n
            };
            let last = &self.instructions[end - 1];
            let last_cmd = chars_of(last.command.as_str());
            let mut targets: Option<Vec<usize>> = None;
            if end - start >= 2 {
                let prev = &self.instructions[end - 2];
                let prev_cmd = chars_of(prev.command.as_str());
                if chars_eq(&last_cmd, "branch") && is_cond_flag_instr(&prev_cmd) && prev.index < usize::MAX
                    && prev.index + 1 == last.index {
                    if let OperandNode::Branch(t) = prev.operand {
                        if let OperandNode::Branch(f) = last.operand {
                            targets = Some(vec![t, f]);
                        }
                    }
                }
            }
            if targets.is_none() {
                targets = extract_branch_targets(last);
            }
            if let Some(ts) = &targets {
                let mut j: usize = 0;
                while j < ts.len()
                    invariant
                        count == leaders@.len(),
                        bi < count,
                        succs@.len() == count,
                        preds@.len() == count,
                        forall|a: int, b: int| 0 <= a < count && 0 <= b < succs@[a]@.len() ==> #[trigger] succs@[a]@[b] < count,
                        forall|a: int, b: int| 0 <= a < count && 0 <= b < preds@[a]@.len() ==> #[trigger] preds@[a]@[b] < count,
                        forall|a: int, c: int|
                            0 <= a < count && 0 <= c < count ==> #[trigger] occurrences(succs@[a]@, c) == occurrences(
                                preds@[c]@,
                                a,
                            ),
                    decreases ts@.len() - j,
                {
                    if let Some(tb) = block_starting_at(&leaders, ts[j]) {
                        let ghost s0 = succs@;
                        let ghost p0 = preds@;
                        push_at(&mut succs, bi, tb);
                        push_at(&mut preds, tb, bi);
                        proof {
                            lemma_mirror_step(s0, p0, succs@, preds@, bi as int, tb as int, count as int);
                        }
                    }
                    j = j + 1;
                }
            }
            let has_jump = chars_eq(&last_cmd, "branch") || chars_eq(&last_cmd, "return") || chars_eq(
                &last_cmd,
                "switch",
            );
            if !has_jump && bi + 1 < count {
                let ghost s0 = succs@;
                let ghost p0 = preds@;
                push_at(&mut succs, bi, bi + 1);
                push_at(&mut preds, bi + 1, bi);
                proof {
                    lemma_mirror_step(s0, p0, succs@, preds@, bi as int, bi + 1, count as int);
                }
            }
            bi = bi + 1;
        }
        let mut blocks: Vec<Block> = Vec::new();
        let mut b: usize = 0;
        while b < count
            invariant
                count == leaders@.len(),
                count > 0,
                leaders@[0] == 0,
                n == self.instructions@.len(),
                self.recovered@.len() == n,
                forall|a: int| 0 <= a < leaders@.len() ==> leaders@[a] < n,
                forall|a: int, c: int| 0 <= a < c < leaders@.len() ==> leaders@[a] < leaders@[c],
                succs@.len() == count,
                preds@.len() == count,
                forall|a: int, c: int| 0 <= a < count && 0 <= c < succs@[a]@.len() ==> #[trigger] succs@[a]@[c] < count,
                forall|a: int, c: int| 0 <= a < count && 0 <= c < preds@[a]@.len() ==> #[trigger] preds@[a]@[c] < count,
                forall|a: int, c: int|
                    0 <= a < count && 0 <= c < count ==> #[trigger] occurrences(succs@[a]@, c) == occurrences(
                        preds@[c]@,
                        a,
                    ),
                blocks@.len() == b,
                b <= count,
                forall|a: int|
                    0 <= a < b ==> (#[trigger] blocks@[a]).index == a && blocks@[a].start == leaders@[a]
                        && blocks@[a].end == (if a + 1 < count {
                        leaders@[a + 1] as int
                    } else {
                        n as int
                    }) && blocks@[a].successors@ == succs@[a]@ && blocks@[a].predecessors@
                        == preds@[a]@,
            decreases count - b,
        {
            let start = leaders[b];
            let end = if b + 1 < count {
                leaders[b + 1]
            } else {
                n
            };
            let mut statements: Vec<RecoveredStmt> = Vec::new();
            let mut idx: usize = start;
            while idx < end
                invariant
                    start <= idx <= end <= n,
                    self.recovered@.len() == n,
                decreases end - idx,
            {
                if let Some(s) = &self.recovered[idx] {
                    statements.push(s.clone());
                }
                idx = idx + 1;
            }
            let successors = succs[b].clone();
            let mut is_loop_header = false;
            let mut loop_target: Option<usize> = None;
            let mut j: usize = 0;
            while j < successors.len()
                decreases successors@.len() - j,
            {
                if successors[j] < b {
                    is_loop_header = true;
                    loop_target = Some(successors[j]);
                    break;
                }
                j = j + 1;
            }
            let is_conditional_branch = successors.len() >= 2;
            let mut branch_condition: Option<Expression> = None;
            if is_conditional_branch {
                let mut m: usize = statements.len();
                while m > 0
                    invariant
                        m <= statements@.len(),
                    decreases m,
                {
                    m = m - 1;
                    if let Some(c) = branch_condition_expr(&statements[m]) {
                        branch_condition = Some(c);
                        break;
                    }
                }
            }
            blocks.push(
                Block {
                    index: b,
                    start,
                    end,
                    statements,
                    successors,
                    predecessors: preds[b].clone(),
                    is_loop_header,
                    loop_target,
                    is_conditional_branch,
                    branch_condition,
                },
            );
            b = b + 1;
        }
        blocks
    }
}

/// The blocks of `instructions`, recovered for build 0.
pub fn build_cfg(
    instructions: &[InstructionNode],
    var_names: &NameTable,
    component_names: &NameTable,
    enum_value_names: &NameTable,
    script_catalog: &ScriptCatalog,
    script_signatures: &SignatureMap,
) -> (r: Vec<Block>)
    ensures
        blocks_partition(r@, instructions@.len() as int),
        edges_mirrored(r@),
{
    CfgBuilder::new(
        instructions,
        var_names,
        component_names,
        enum_value_names,
        script_catalog,
        script_signatures,
    ).build()
}

/// The blocks of `instructions`, recovered for build `build`.
pub fn build_cfg_for_build(
    instructions: &[InstructionNode],
    var_names: &NameTable,
    component_names: &NameTable,
    enum_value_names: &NameTable,
    script_catalog: &ScriptCatalog,
    script_signatures: &SignatureMap,
    build: u32,
) -> (r: Vec<Block>)
    ensures
        blocks_partition(r@, instructions@.len() as int),
        edges_mirrored(r@),
{
    CfgBuilder::new_for_build(
        instructions,
        var_names,
        component_names,
        enum_value_names,
        script_catalog,
        script_signatures,
        build,
    ).build()
}


/// What a scan for returns has seen: the first value kind, whether kinds
/// disagreed, and whether some return carried no value.
pub struct ReturnScan {
    pub value_kind: Option<ReturnValueKind>,
    pub mixed: bool,
    pub has_void: bool,
}

/// The values (or none) of the returns a statement holds, nested bodies
/// included, in order; with `stop`, statements after one that always
/// leaves its block are not looked at.
pub open spec fn ret_stmt(st: StructuredStmt, stop: bool) -> Seq<Option<Expression>>
    decreases st,
{
    match st {
        StructuredStmt::Return { value } => seq![value],
        StructuredStmt::While { body } => ret_list(
            {
                proof {
                    assert(decreases_to!(st => body));
                    assert(decreases_to!(body => body@));
                }
                body@
            },
            stop,
        ),
        StructuredStmt::If { then_body, else_body, .. } => ret_list(
            {
                proof {
                    assert(decreases_to!(st => then_body));
                    assert(decreases_to!(then_body => then_body@));
                }
                then_body@
            },
            stop,
        ) + match else_body {
            Some(e) => ret_list(
                {
                    proof {
                        assert(decreases_to!(st => else_body));
                        assert(decreases_to!(else_body => e));
                        assert(decreases_to!(e => e@));
                    }
                    e@
                },
                stop,
            ),
            None => Seq::empty(),
        },
        StructuredStmt::Switch { cases, default_body, .. } => ret_cases(
            {
                proof {
                    assert(decreases_to!(st => cases));
                    assert(decreases_to!(cases => cases@));
                }
                cases@
            },
            stop,
        ) + match default_body {
            Some(d) => ret_list(
                {
                    proof {
                        assert(decreases_to!(st => default_body));
                        assert(decreases_to!(default_body => d));
                        assert(decreases_to!(d => d@));
                    }
                    d@
                },
                stop,
            ),
            None => Seq::empty(),
        },
        _ => Seq::empty(),
    }
}

/// The returns of a list of statements, in order (see `ret_stmt`).
pub open spec fn ret_list(s: Seq<StructuredStmt>, stop: bool) -> Seq<Option<Expression>>
    decreases s,
{
    if s.len() == 0 {
        Seq::empty()
    } else {
        let init = s.subrange(0, s.len() - 1);
        if stop && exists|j: int| 0 <= j < init.len() && crate::transpile::structured::terminates_spec(
            #[trigger] init[j],
        ) {
            ret_list(init, stop)
        } else {
            ret_list(init, stop) + ret_stmt(s[s.len() - 1], stop)
        }
    }
}

/// The returns of the case bodies of a switch, in order.
pub open spec fn ret_cases(cs: Seq<crate::transpile::structured::SwitchCaseStmt>, stop: bool) -> Seq<Option<Expression>>
    decreases cs,
{
    if cs.len() == 0 {
        Seq::empty()
    } else {
        ret_cases(cs.subrange(0, cs.len() - 1), stop) + ret_list(
            {
                proof {
                    assert(decreases_to!(cs => cs[cs.len() - 1]));
                    assert(decreases_to!(cs[cs.len() - 1] => cs[cs.len() - 1].body));
                    assert(decreases_to!(cs[cs.len() - 1].body => cs[cs.len() - 1].body@));
                }
                cs[cs.len() - 1].body@
            },
            stop,
        )
    }
}

/// The scan after seeing one more return.
pub open spec fn scan_step(sc: ReturnScan, ev: Option<Expression>, ctx: Option<(&ScriptCatalog, &SignatureMap)>) -> ReturnScan {
    match ev {
        Some(v) => {
            let next = crate::transpile::expr_recovery::infer_kind_of(v, ctx, false);
            match sc.value_kind {
                Some(existing) => if existing != next {
                    ReturnScan { mixed: true, ..sc }
                } else {
                    sc
                },
                None => ReturnScan { value_kind: Some(next), ..sc },
            }
        },
        None => ReturnScan { has_void: true, ..sc },
    }
}

/// The scan after seeing the returns `evs` in order.
pub open spec fn scan_fold(sc: ReturnScan, evs: Seq<Option<Expression>>, ctx: Option<(&ScriptCatalog, &SignatureMap)>) -> ReturnScan
    decreases evs.len(),
{
    if evs.len() == 0 {
        sc
    } else {
        scan_step(scan_fold(sc, evs.drop_last(), ctx), evs.last(), ctx)
    }
}

proof fn lemma_scan_fold_append(
    sc: ReturnScan,
    a: Seq<Option<Expression>>,
    b: Seq<Option<Expression>>,
    ctx: Option<(&ScriptCatalog, &SignatureMap)>,
)
    ensures
        scan_fold(sc, a + b, ctx) == scan_fold(scan_fold(sc, a, ctx), b, ctx),
    decreases b.len(),
{
    if b.len() == 0 {
        assert(a + b =~= a);
    } else {
        assert((a + b).drop_last() =~= a + b.drop_last());
        lemma_scan_fold_append(sc, a, b.drop_last(), ctx);
    }
}

proof fn lemma_ret_list_stops(s: Seq<StructuredStmt>, stop: bool, i: int, k: int)
    requires
        stop,
        0 <= i < k <= s.len(),
        crate::transpile::structured::terminates_spec(s[i]),
    ensures
        ret_list(s.subrange(0, k), stop) == ret_list(s.subrange(0, i + 1), stop),
    decreases k,
{
    if k > i + 1 {
        let t = s.subrange(0, k);
        assert(t.subrange(0, t.len() - 1) =~= s.subrange(0, k - 1));
        assert(s.subrange(0, k - 1)[i] == s[i]);
        lemma_ret_list_stops(s, stop, i, k - 1);
    }
}

/// Records the returns in `stmts`, nested bodies included; with
/// `stop_at_terminator`, statements after one that always leaves its block
/// are not looked at.
fn scan_for_returns(
    stmts: &Vec<StructuredStmt>,
    ctx: Option<(&ScriptCatalog, &SignatureMap)>,
    scan: &mut ReturnScan,
    stop_at_terminator: bool,
)
    ensures
        *final(scan) == scan_fold(*old(scan), ret_list(stmts@, stop_at_terminator), ctx),
    decreases stmts,
{
    let mut i: usize = 0;
    proof {
        assert(stmts@.subrange(0, 0) =~= Seq::<StructuredStmt>::empty());
    }
    while i < stmts.len()
        invariant
            i <= stmts@.len(),
            *scan == scan_fold(*old(scan), ret_list(stmts@.subrange(0, i as int), stop_at_terminator), ctx),
            !(stop_at_terminator && exists|j: int|
                0 <= j < i && crate::transpile::structured::terminates_spec(#[trigger] stmts@[j])),
        decreases stmts@.len() - i,
    {
        proof {
            assert(decreases_to!(stmts => stmts@));
            assert(decreases_to!(stmts@ => stmts@[i as int]));
            let t = stmts@.subrange(0, i + 1);
            assert(t.subrange(0, t.len() - 1) =~= stmts@.subrange(0, i as int));
            assert(t[t.len() - 1] == stmts@[i as int]);
            assert(!(stop_at_terminator && exists|j: int|
                0 <= j < i && crate::transpile::structured::terminates_spec(
                    #[trigger] stmts@.subrange(0, i as int)[j],
                ))) by {
                if stop_at_terminator && exists|j: int|
                    0 <= j < i && crate::transpile::structured::terminates_spec(
                        #[trigger] stmts@.subrange(0, i as int)[j],
                    ) {
                    let j = choose|j: int|
                        0 <= j < i && crate::transpile::structured::terminates_spec(
                            #[trigger] stmts@.subrange(0, i as int)[j],
                        );
                    assert(stmts@.subrange(0, i as int)[j] == stmts@[j]);
                }
            }
            assert(ret_list(stmts@.subrange(0, i + 1), stop_at_terminator) == ret_list(
                stmts@.subrange(0, i as int),
                stop_at_terminator,
            ) + ret_stmt(stmts@[i as int], stop_at_terminator));
        }
        let ghost sc0 = *scan;
        let ghost pre = ret_list(stmts@.subrange(0, i as int), stop_at_terminator);
        match &stmts[i] {
            StructuredStmt::Return { value } => match value {
                Some(v) => {
                    let next = infer_kind(v, ctx, false);
                    match scan.value_kind {
                        Some(existing) => {
                            if existing != next {
                                scan.mixed = true;
                            }
                        },
                        None => {
                            scan.value_kind = Some(next);
                        },
                    }
                    proof {
                        assert(ret_stmt(stmts@[i as int], stop_at_terminator) =~= seq![Some(*v)]);
                        assert(seq![Some(*v)].drop_last() =~= Seq::<Option<Expression>>::empty());
                        assert(scan_fold(sc0, seq![Some(*v)], ctx) == scan_step(sc0, Some(*v), ctx));
                        assert(*scan == scan_step(sc0, Some(*v), ctx));
                    }
                },
                None => {
                    scan.has_void = true;
                    proof {
                        assert(ret_stmt(stmts@[i as int], stop_at_terminator) =~= seq![None]);
                        assert(seq![None::<Expression>].drop_last() =~= Seq::<Option<Expression>>::empty());
                        assert(scan_fold(sc0, seq![None], ctx) == scan_step(sc0, None, ctx));
                    }
                },
            },
            StructuredStmt::While { body } => {
                proof {
                    assert(decreases_to!(stmts => stmts@[i as int]->While_body));
                }
                scan_for_returns(body, ctx, scan, stop_at_terminator);
                proof {
                    assert(ret_stmt(stmts@[i as int], stop_at_terminator) == ret_list(body@, stop_at_terminator));
                }
            },
            StructuredStmt::If { then_body, else_body, .. } => {
                proof {
                    assert(decreases_to!(stmts => stmts@[i as int]->If_then_body));
                }
                scan_for_returns(then_body, ctx, scan, stop_at_terminator);
                let ghost sc1 = *scan;
                if let Some(e) = else_body {
                    proof {
                        assert(decreases_to!(stmts => stmts@[i as int]->If_else_body));
                        assert(decreases_to!(stmts@[i as int]->If_else_body => e));
                    }
                    scan_for_returns(e, ctx, scan, stop_at_terminator);
                    proof {
                        lemma_scan_fold_append(sc0, ret_list(then_body@, stop_at_terminator), ret_list(e@, stop_at_terminator), ctx);
                        assert(ret_stmt(stmts@[i as int], stop_at_terminator) == ret_list(then_body@, stop_at_terminator)
                            + ret_list(e@, stop_at_terminator));
                    }
                } else {
                    proof {
                        assert(ret_stmt(stmts@[i as int], stop_at_terminator) =~= ret_list(then_body@, stop_at_terminator));
                    }
                }
            },
            StructuredStmt::Switch { cases, default_body, .. } => {
                let mut k: usize = 0;
                proof {
                    assert(cases@.subrange(0, 0) =~= Seq::<crate::transpile::structured::SwitchCaseStmt>::empty());
                }
                while k < cases.len()
                    invariant
                        stmts@[i as int] matches StructuredStmt::Switch { cases: cs, .. } && cs == *cases,
                        i < stmts@.len(),
                        k <= cases@.len(),
                        *scan == scan_fold(sc0, ret_cases(cases@.subrange(0, k as int), stop_at_terminator), ctx),
                    decreases cases@.len() - k,
                {
                    proof {
                        assert(decreases_to!(stmts => stmts@[i as int]->Switch_cases));
                        assert(decreases_to!(cases => cases@));
                        assert(decreases_to!(cases@ => cases@[k as int]));
                        assert(decreases_to!(cases@[k as int] => cases@[k as int].body));
                        assert(decreases_to!(stmts => cases@[k as int].body));
                        let t = cases@.subrange(0, k + 1);
                        assert(t.subrange(0, t.len() - 1) =~= cases@.subrange(0, k as int));
                        assert(t[t.len() - 1] == cases@[k as int]);
                    }
                    scan_for_returns(&cases[k].body, ctx, scan, stop_at_terminator);
                    proof {
                        lemma_scan_fold_append(
                            sc0,
                            ret_cases(cases@.subrange(0, k as int), stop_at_terminator),
                            ret_list(cases@[k as int].body@, stop_at_terminator),
                            ctx,
                        );
                    }
                    k = k + 1;
                }
                proof {
                    assert(cases@.subrange(0, k as int) =~= cases@);
                }
                if let Some(d) = default_body {
                    proof {
                        assert(decreases_to!(stmts => stmts@[i as int]->Switch_default_body));
                        assert(decreases_to!(stmts@[i as int]->Switch_default_body => d));
                    }
                    scan_for_returns(d, ctx, scan, stop_at_terminator);
                    proof {
                        lemma_scan_fold_append(sc0, ret_cases(cases@, stop_at_terminator), ret_list(d@, stop_at_terminator), ctx);
                        assert(ret_stmt(stmts@[i as int], stop_at_terminator) == ret_cases(cases@, stop_at_terminator)
                            + ret_list(d@, stop_at_terminator));
                    }
                } else {
                    proof {
                        assert(ret_stmt(stmts@[i as int], stop_at_terminator) =~= ret_cases(cases@, stop_at_terminator));
                    }
                }
            },
            _ => {
                proof {
                    assert(ret_stmt(stmts@[i as int], stop_at_terminator) =~= Seq::<Option<Expression>>::empty());
                    assert(scan_fold(sc0, Seq::<Option<Expression>>::empty(), ctx) == sc0);
                }
            },
        }
        proof {
            assert(*scan == scan_fold(sc0, ret_stmt(stmts@[i as int], stop_at_terminator), ctx));
            lemma_scan_fold_append(*old(scan), pre, ret_stmt(stmts@[i as int], stop_at_terminator), ctx);
            assert(*scan == scan_fold(*old(scan), ret_list(stmts@.subrange(0, i + 1), stop_at_terminator), ctx));
        }
        if stop_at_terminator && stmt_terminates(&stmts[i]) {
            proof {
                lemma_ret_list_stops(stmts@, stop_at_terminator, i as int, stmts@.len() as int);
                assert(stmts@.subrange(0, stmts@.len() as int) =~= stmts@);
            }
            return;
        }
        i = i + 1;
    }
    proof {
        assert(stmts@.subrange(0, i as int) =~= stmts@);
    }
}

/// Whether some top-level statement is a label (the linear form).
fn contains_label(stmts: &Vec<StructuredStmt>) -> (r: bool)
    ensures
        r == exists|i: int| 0 <= i < stmts@.len() && #[trigger] stmts@[i] is Label,
{
    let mut i: usize = 0;
    while i < stmts.len()
        invariant
            i <= stmts@.len(),
            forall|j: int| 0 <= j < i ==> !(#[trigger] stmts@[j] is Label),
        decreases stmts@.len() - i,
    {
        if let StructuredStmt::Label { .. } = &stmts[i] {
            return true;
        }
        i = i + 1;
    }
    false
}

/// The returns control can reach in `stmts`, in order: in the linear form
/// (with labels) every return; in the nested form those not after a
/// statement that always leaves its block.
pub open spec fn reachable_returns(stmts: Seq<StructuredStmt>) -> Seq<Option<Expression>> {
    ret_list(stmts, !exists|i: int| 0 <= i < stmts.len() && #[trigger] stmts[i] is Label)
}

/// The return type label of structured statements: `void` when no
/// reachable return carries a value, else the kind of the first value
/// (`number` when two kinds disagree), with `| void` when a reachable
/// return carries none.
pub open spec fn structured_return_type(stmts: Seq<StructuredStmt>, ctx: Option<(&ScriptCatalog, &SignatureMap)>) -> Seq<
    char,
> {
    let sc = scan_fold(
        ReturnScan { value_kind: None, mixed: false, has_void: false },
        reachable_returns(stmts),
        ctx,
    );
    match sc.value_kind {
        Some(k) => return_type_label(
            if sc.mixed {
                ReturnValueKind::Int
            } else {
                k
            },
            sc.has_void,
        ),
        None => "void"@,
    }
}

fn detect_return_type_inner(stmts: &Vec<StructuredStmt>, ctx: Option<(&ScriptCatalog, &SignatureMap)>) -> (r: &'static str)
    ensures
        r@ == structured_return_type(stmts@, ctx),
{
    let mut scan = ReturnScan { value_kind: None, mixed: false, has_void: false };
    let stop_at_terminator = !contains_label(stmts);
    scan_for_returns(stmts, ctx, &mut scan, stop_at_terminator);
    let kind = if scan.mixed && scan.value_kind.is_some() {
        Some(ReturnValueKind::Int)
    } else {
        scan.value_kind
    };
    let has_void = scan.has_void;
    let r: &'static str = match kind {
        Some(ReturnValueKind::Int) => if has_void {
            "number | void"
        } else {
            "number"
        },
        Some(ReturnValueKind::Object) => if has_void {
            "string | void"
        } else {
            "string"
        },
        Some(ReturnValueKind::Long) => if has_void {
            "bigint | void"
        } else {
            "bigint"
        },
        None => "void",
    };
    proof {
        if let Some(k) = kind {
            assert(r@ == return_type_label(k, has_void));
        }
    }
    r
}

/// The return type of structured statements: the kind of the values the
/// reachable returns carry (`number` when they disagree), with `| void`
/// when one carries none, or `void`. In the nested form, statements after
/// one that always leaves its block are unreachable and not counted.
pub fn detect_return_type(stmts: &Vec<StructuredStmt>) -> (r: &'static str)
    ensures
        r@ == structured_return_type(stmts@, None),
{
    detect_return_type_inner(stmts, None)
}

/// As `detect_return_type`, with script calls typed by their signatures.
pub fn detect_return_type_with_signatures(
    stmts: &Vec<StructuredStmt>,
    script_catalog: &ScriptCatalog,
    script_signatures: &SignatureMap,
) -> (r: &'static str)
    ensures
        r@ == structured_return_type(stmts@, Some((script_catalog, script_signatures))),
{
    detect_return_type_inner(stmts, Some((script_catalog, script_signatures)))
}


/// The structured statements of the blocks; the linear form when a jump
/// carries stack values.
pub fn emit_structured(blocks: &[Block]) -> (r: Vec<StructuredStmt>)
    ensures
        crate::transpile::structurer::has_stack_goto_spec(blocks@) ==> crate::transpile::structurer::linear_form(
            blocks@,
            r@,
        ),
{
    crate::transpile::structurer::structure(blocks)
}

/// The linear form of the blocks: every label a block start, every jump
/// onto a label (or out of all blocks), no loops.
pub fn emit_linear_structured(blocks: &[Block]) -> (r: Vec<StructuredStmt>)
    ensures
        forall|i: int|
            0 <= i < r@.len() ==> (#[trigger] r@[i] matches StructuredStmt::Label { target } ==> exists|b: int|
                0 <= b < blocks@.len() && blocks@[b].start == target),
        forall|i: int|
            0 <= i < r@.len() ==> crate::transpile::structurer::linear_stmt(
                #[trigger] r@[i],
                |t: usize| crate::transpile::structurer::jump_lands(blocks@, r@, t),
            ),
{
    crate::transpile::structurer::structure_linear(blocks)
}

} // verus!
