//! Graph algorithms over block successor lists: reverse postorder,
//! (post-)dominators and natural loops.
use vstd::prelude::*;

verus! {

/// The number of `false` entries.
pub open spec fn count_false(s: Seq<bool>) -> nat
    decreases s.len(),
{
    if s.len() == 0 {
        0
    } else {
        count_false(s.drop_last()) + (if s.last() {
            0nat
        } else {
            1nat
        })
    }
}

/// `b` keeps every `true` of `a`.
pub open spec fn grows(a: Seq<bool>, b: Seq<bool>) -> bool {
    a.len() == b.len() && forall|i: int| 0 <= i < a.len() && #[trigger] a[i] ==> b[i]
}

/// Growing never adds `false` entries; turning one more entry `true`
/// removes one.
pub proof fn lemma_count_false_grows(a: Seq<bool>, b: Seq<bool>)
    requires
        grows(a, b),
    ensures
        count_false(b) <= count_false(a),
        (exists|i: int| 0 <= i < a.len() && !a[i] && b[i]) ==> count_false(b) < count_false(a),
    decreases a.len(),
{
    if a.len() > 0 {
        let a2 = a.drop_last();
        let b2 = b.drop_last();
        assert(grows(a2, b2)) by {
            assert forall|i: int| 0 <= i < a2.len() && #[trigger] a2[i] implies b2[i] by {
                assert(a[i]);
            }
        }
        lemma_count_false_grows(a2, b2);
        if exists|i: int| 0 <= i < a.len() && !a[i] && b[i] {
            let i = choose|i: int| 0 <= i < a.len() && !a[i] && b[i];
            if i < a.len() - 1 {
                assert(!a2[i] && b2[i]);
            }
        }
    }
}

/// Setting a `false` entry removes one `false`.
pub proof fn lemma_count_false_set(s: Seq<bool>, i: int)
    requires
        0 <= i < s.len(),
        !s[i],
    ensures
        count_false(s.update(i, true)) < count_false(s),
        grows(s, s.update(i, true)),
{
    let t = s.update(i, true);
    assert(grows(s, t));
    assert(!s[i] && t[i]);
    lemma_count_false_grows(s, t);
}

/// Every list holds indices below `n`.
pub open spec fn lists_below(lists: Seq<Vec<usize>>, n: int) -> bool {
    forall|a: int, b: int| 0 <= a < lists.len() && 0 <= b < lists[a]@.len() ==> #[trigger] lists[a]@[b] < n
}

/// The successors still to visit on a depth-first stack, plus one per
/// entry.
pub open spec fn pending(stack: Seq<(usize, usize)>, succ: Seq<Vec<usize>>) -> int
    decreases stack.len(),
{
    if stack.len() == 0 {
        0
    } else {
        pending(stack.drop_last(), succ) + (succ[stack.last().0 as int]@.len() - stack.last().1 + 1)
    }
}

/// Every stack entry names a node below `n` and a position within its
/// successor list.
pub open spec fn stack_ok(stack: Seq<(usize, usize)>, succ: Seq<Vec<usize>>, n: int) -> bool {
    forall|k: int|
        0 <= k < stack.len() ==> (#[trigger] stack[k]).0 < n && stack[k].1 <= succ[stack[k].0 as int]@.len()
}

proof fn lemma_pending_nonneg(stack: Seq<(usize, usize)>, succ: Seq<Vec<usize>>, n: int)
    requires
        stack_ok(stack, succ, n),
        succ.len() == n,
    ensures
        pending(stack, succ) >= stack.len(),
    decreases stack.len(),
{
    if stack.len() > 0 {
        assert(stack_ok(stack.drop_last(), succ, n)) by {
            assert forall|k: int| 0 <= k < stack.drop_last().len() implies (#[trigger] stack.drop_last()[k]).0 < n
                && stack.drop_last()[k].1 <= succ[stack.drop_last()[k].0 as int]@.len() by {
                assert(stack.drop_last()[k] == stack[k]);
            }
        }
        lemma_pending_nonneg(stack.drop_last(), succ, n);
        assert(stack[stack.len() - 1] == stack.last());
    }
}

/// `x` is reachable from `entry` in at most `k` steps along `succ`.
pub open spec fn reach_in(succ: Seq<Vec<usize>>, entry: int, x: int, k: nat) -> bool
    decreases k,
{
    if k == 0 {
        x == entry
    } else {
        reach_in(succ, entry, x, (k - 1) as nat) || exists|y: int, c: int|
            0 <= y < succ.len() && 0 <= c < succ[y]@.len() && #[trigger] succ[y]@[c] == x && reach_in(
                succ,
                entry,
                y,
                (k - 1) as nat,
            )
    }
}

/// `x` is reachable from `entry` along `succ`.
pub open spec fn reachable(succ: Seq<Vec<usize>>, entry: int, x: int) -> bool {
    exists|k: nat| reach_in(succ, entry, x, k)
}

/// A set that holds `entry` and the successors of its members holds every
/// node reachable from `entry`.
proof fn lemma_closed_holds_reachable(succ: Seq<Vec<usize>>, entry: int, set: Seq<bool>, x: int, k: nat)
    requires
        set.len() == succ.len(),
        lists_below(succ, succ.len() as int),
        0 <= entry < set.len(),
        set[entry],
        forall|y: int, c: int|
            0 <= y < succ.len() && set[y] && 0 <= c < succ[y]@.len() ==> set[#[trigger] succ[y]@[c] as int],
        reach_in(succ, entry, x, k),
    ensures
        0 <= x < set.len() && set[x],
    decreases k,
{
    if k > 0 {
        if reach_in(succ, entry, x, (k - 1) as nat) {
            lemma_closed_holds_reachable(succ, entry, set, x, (k - 1) as nat);
        } else {
            let (y, c) = choose|y: int, c: int|
                0 <= y < succ.len() && 0 <= c < succ[y]@.len() && #[trigger] succ[y]@[c] == x && reach_in(
                    succ,
                    entry,
                    y,
                    (k - 1) as nat,
                );
            lemma_closed_holds_reachable(succ, entry, set, y, (k - 1) as nat);
        }
    }
}

/// The nodes reachable from `entry`, each once and `entry` first, in
/// reverse postorder of a depth-first walk that visits successors in list
/// order.
pub fn reverse_postorder(n: usize, entry: usize, succ: &Vec<Vec<usize>>) -> (r: Vec<usize>)
    requires
        entry < n,
        succ@.len() == n,
        lists_below(succ@, n as int),
    ensures
        forall|k: int| 0 <= k < r@.len() ==> r@[k] < n,
        r@.len() > 0 && r@[0] == entry,
        r@.no_duplicates(),
        forall|x: int| #[trigger] reachable(succ@, entry as int, x) ==> r@.contains(x as usize),
        forall|j: int| 0 <= j < r@.len() ==> reachable(succ@, entry as int, #[trigger] r@[j] as int),
{
    let mut visited: Vec<bool> = Vec::new();
    let mut k: usize = 0;
    while k < n
        invariant
            k <= n,
            visited@.len() == k,
            forall|j: int| 0 <= j < k ==> !visited@[j],
        decreases n - k,
    {
        visited.push(false);
        k = k + 1;
    }
    let mut post: Vec<usize> = Vec::new();
    let mut stack: Vec<(usize, usize)> = Vec::new();
    stack.push((entry, 0));
    visited.set(entry, true);
    let ghost mut level: Seq<nat> = Seq::new(n as nat, |i: int| 0nat);
    proof {
        assert forall|x: int| 0 <= x < n && #[trigger] visited@[x] implies reach_in(succ@, entry as int, x, level[x]) by {
            assert(x == entry);
        }
    }
    proof {
        assert forall|x: int| 0 <= x < n implies (#[trigger] visited@[x] <==> (exists|q: int|
            0 <= q < stack@.len() && stack@[q].0 == x) || post@.contains(x as usize)) by {
            if x == entry {
                assert(stack@[0].0 == x);
            }
        }
    }
    while stack.len() > 0
        invariant
            visited@.len() == n,
            succ@.len() == n,
            lists_below(succ@, n as int),
            stack_ok(stack@, succ@, n as int),
            forall|j: int| 0 <= j < post@.len() ==> post@[j] < n,
            stack@.len() > 0 ==> stack@[0].0 == entry,
            stack@.len() == 0 ==> post@.len() > 0 && post@.last() == entry,
            forall|x: int|
                0 <= x < n ==> (#[trigger] visited@[x] <==> (exists|q: int|
                    0 <= q < stack@.len() && stack@[q].0 == x) || post@.contains(x as usize)),
            forall|q1: int, q2: int| 0 <= q1 < q2 < stack@.len() ==> stack@[q1].0 != stack@[q2].0,
            forall|q: int| 0 <= q < stack@.len() ==> !post@.contains(#[trigger] stack@[q].0),
            post@.no_duplicates(),
            forall|q: int, c: int|
                0 <= q < stack@.len() && 0 <= c < stack@[q].1 ==> visited@[#[trigger] succ@[stack@[q].0 as int]@[c] as int],
            forall|x: int, c: int|
                0 <= x < n && post@.contains(x as usize) && 0 <= c < succ@[x]@.len() ==> visited@[
                #[trigger] succ@[x]@[c] as int],
            visited@[entry as int],
            entry < n,
            level.len() == n,
            forall|x: int| 0 <= x < n && #[trigger] visited@[x] ==> reach_in(succ@, entry as int, x, level[x]),
        decreases count_false(visited@), pending(stack@, succ@),
    {
        let top = stack.len() - 1;
        let (node, ci) = stack[top];
        if ci < succ[node].len() {
            let ghost before = stack@;
            let ghost vis_before = visited@;
            stack.set(top, (node, ci + 1));
            proof {
                assert(stack@.drop_last() =~= before.drop_last());
                assert(stack_ok(stack@, succ@, n as int)) by {
                    assert forall|q: int| 0 <= q < stack@.len() implies (#[trigger] stack@[q]).0 < n
                        && stack@[q].1 <= succ@[stack@[q].0 as int]@.len() by {
                        if q != top {
                            assert(stack@[q] == before[q]);
                        }
                    }
                }
                assert(pending(stack@, succ@) < pending(before, succ@));
                lemma_pending_nonneg(stack@, succ@, n as int);
                assert forall|q: int| 0 <= q < stack@.len() implies #[trigger] stack@[q].0 == before[q].0 by {
                    if q != top {
                        assert(stack@[q] == before[q]);
                    }
                }
                assert forall|x: int| 0 <= x < n implies (#[trigger] visited@[x] <==> (exists|q: int|
                    0 <= q < stack@.len() && stack@[q].0 == x) || post@.contains(x as usize)) by {
                    if exists|q: int| 0 <= q < stack@.len() && stack@[q].0 == x {
                        let q = choose|q: int| 0 <= q < stack@.len() && stack@[q].0 == x;
                        assert(before[q].0 == x);
                    }
                    if exists|q: int| 0 <= q < before.len() && before[q].0 == x {
                        let q = choose|q: int| 0 <= q < before.len() && before[q].0 == x;
                        assert(stack@[q].0 == x);
                    }
                }
            }
            let next = succ[node][ci];
            proof {
                assert(succ@[node as int]@[ci as int] < n);
            }
            let ghost vis_pre = visited@;
            let ghost stack_pre = stack@;
            if !visited[next] {
                proof {
                    assert(before[top as int].0 == node);
                    assert(visited@[node as int]);
                    let kk = level[node as int];
                    assert(reach_in(succ@, entry as int, node as int, kk));
                    assert(succ@[node as int]@[ci as int] == next);
                    assert(reach_in(succ@, entry as int, next as int, kk + 1));
                    level = level.update(next as int, kk + 1);
                }
                visited.set(next, true);
                proof {
                    lemma_count_false_set(vis_before, next as int);
                }
                let ghost mid = stack@;
                stack.push((next, 0));
                proof {
                    assert(!(exists|q: int| 0 <= q < mid.len() && mid[q].0 == next));
                    assert(!post@.contains(next));
                    assert forall|x: int| 0 <= x < n implies (#[trigger] visited@[x] <==> (exists|q: int|
                        0 <= q < stack@.len() && stack@[q].0 == x) || post@.contains(x as usize)) by {
                        if x == next {
                            assert(stack@[mid.len() as int].0 == x);
                        } else {
                            assert(visited@[x] == vis_before[x]);
                            if exists|q: int| 0 <= q < stack@.len() && stack@[q].0 == x {
                                let q = choose|q: int| 0 <= q < stack@.len() && stack@[q].0 == x;
                                assert(q < mid.len());
                                assert(mid[q].0 == x);
                            }
                            if exists|q: int| 0 <= q < mid.len() && mid[q].0 == x {
                                let q = choose|q: int| 0 <= q < mid.len() && mid[q].0 == x;
                                assert(stack@[q].0 == x);
                            }
                        }
                    }
                    assert forall|q1: int, q2: int| 0 <= q1 < q2 < stack@.len() implies stack@[q1].0 != stack@[q2].0 by {
                        if q2 == mid.len() {
                            assert(stack@[q1] == mid[q1]);
                        } else {
                            assert(stack@[q1] == mid[q1] && stack@[q2] == mid[q2]);
                        }
                    }
                    assert forall|q: int| 0 <= q < stack@.len() implies !post@.contains(#[trigger] stack@[q].0) by {
                        if q < mid.len() {
                            assert(stack@[q] == mid[q]);
                        }
                    }
                    assert(stack_ok(stack@, succ@, n as int)) by {
                        assert forall|q: int| 0 <= q < stack@.len() implies (#[trigger] stack@[q]).0 < n
                            && stack@[q].1 <= succ@[stack@[q].0 as int]@.len() by {
                            if q < mid.len() {
                                assert(stack@[q] == mid[q]);
                            }
                        }
                    }
                }
            }
            proof {
                assert(visited@[next as int]);
                assert(forall|x: int| 0 <= x < n && vis_pre[x] ==> visited@[x]);
                assert forall|q: int, c: int|
                    0 <= q < stack@.len() && 0 <= c < stack@[q].1 implies visited@[#[trigger] succ@[stack@[q].0 as int]@[c] as int] by {
                    if q < stack_pre.len() {
                        assert(stack@[q] == stack_pre[q]);
                        if q == top && c == ci {
                            assert(stack@[q].0 == node);
                        } else {
                            assert(stack_pre[q] == before[q] || q == top);
                            if q == top {
                                assert(before[q].0 == node && before[q].1 == ci);
                            } else {
                                assert(stack_pre[q] == before[q]);
                            }
                        }
                    }
                }
            }
        } else {
            let ghost post_before = post@;
            post.push(node);
            let ghost before = stack@;
            stack.pop();
            proof {
                assert(before[top as int].0 == node);
                assert(!post_before.contains(node));
                assert(post@.no_duplicates()) by {
                    assert forall|a: int, b: int| 0 <= a < b < post@.len() implies post@[a] != post@[b] by {
                        if b == post_before.len() {
                            assert(post@[a] == post_before[a]);
                        } else {
                            assert(post@[a] == post_before[a] && post@[b] == post_before[b]);
                        }
                    }
                }
                assert forall|x: usize| #[trigger] post@.contains(x) <==> (post_before.contains(x) || x == node) by {
                    if post@.contains(x) {
                        let j = choose|j: int| 0 <= j < post@.len() && post@[j] == x;
                        if j < post_before.len() {
                            assert(post_before[j] == x);
                        }
                    }
                    if post_before.contains(x) {
                        let j = choose|j: int| 0 <= j < post_before.len() && post_before[j] == x;
                        assert(post@[j] == x);
                    }
                    if x == node {
                        assert(post@[post_before.len() as int] == x);
                    }
                }
                assert forall|x: int| 0 <= x < n implies (#[trigger] visited@[x] <==> (exists|q: int|
                    0 <= q < stack@.len() && stack@[q].0 == x) || post@.contains(x as usize)) by {
                    if exists|q: int| 0 <= q < stack@.len() && stack@[q].0 == x {
                        let q = choose|q: int| 0 <= q < stack@.len() && stack@[q].0 == x;
                        assert(before[q].0 == x);
                    }
                    if exists|q: int| 0 <= q < before.len() && before[q].0 == x {
                        let q = choose|q: int| 0 <= q < before.len() && before[q].0 == x;
                        if q < top {
                            assert(stack@[q].0 == x);
                        }
                    }
                }
                assert forall|q1: int, q2: int| 0 <= q1 < q2 < stack@.len() implies stack@[q1].0 != stack@[q2].0 by {
                    assert(stack@[q1] == before[q1] && stack@[q2] == before[q2]);
                }
                assert forall|q: int| 0 <= q < stack@.len() implies !post@.contains(#[trigger] stack@[q].0) by {
                    assert(stack@[q] == before[q]);
                    assert(before[q].0 != before[top as int].0);
                }
                if stack@.len() > 0 {
                    assert(stack@[0] == before[0]);
                } else {
                    assert(top == 0);
                }
                assert(stack@ =~= before.drop_last());
                assert(stack_ok(stack@, succ@, n as int)) by {
                    assert forall|q: int| 0 <= q < stack@.len() implies (#[trigger] stack@[q]).0 < n
                        && stack@[q].1 <= succ@[stack@[q].0 as int]@.len() by {
                        assert(stack@[q] == before[q]);
                    }
                }
                assert(before.last() == before[top as int]);
                assert(pending(stack@, succ@) < pending(before, succ@));
                lemma_pending_nonneg(stack@, succ@, n as int);
            }
        }
    }
    proof {
        assert forall|y: int, c: int|
            0 <= y < succ@.len() && visited@[y] && 0 <= c < succ@[y]@.len() implies visited@[
            #[trigger] succ@[y]@[c] as int] by {
            assert(post@.contains(y as usize));
        }
    }
    let ghost vis_final = visited@;
    let ghost level_final = level;
    let mut r: Vec<usize> = Vec::new();
    let mut i: usize = post.len();
    while i > 0
        invariant
            i <= post@.len(),
            post@.len() > 0 && post@.last() == entry,
            post@.no_duplicates(),
            forall|j: int| 0 <= j < post@.len() ==> post@[j] < n,
            forall|j: int| 0 <= j < r@.len() ==> r@[j] < n,
            r@.len() == post@.len() - i,
            forall|j: int| 0 <= j < r@.len() ==> r@[j] == post@[post@.len() - 1 - j],
        decreases i,
    {
        i = i - 1;
        r.push(post[i]);
    }
    proof {
        assert forall|x: int| #[trigger] reachable(succ@, entry as int, x) implies r@.contains(x as usize) by {
            let k = choose|k: nat| reach_in(succ@, entry as int, x, k);
            lemma_closed_holds_reachable(succ@, entry as int, vis_final, x, k);
            assert(post@.contains(x as usize));
            let j = choose|j: int| 0 <= j < post@.len() && post@[j] == x as usize;
            assert(r@[post@.len() - 1 - j] == post@[j]);
        }
        assert forall|j: int| 0 <= j < r@.len() implies reachable(succ@, entry as int, #[trigger] r@[j] as int) by {
            let x = r@[j] as int;
            assert(r@[j] == post@[post@.len() - 1 - j]);
            assert(post@.contains(r@[j]));
            assert(vis_final[x]);
            assert(reach_in(succ@, entry as int, x, level_final[x]));
        }
        assert(r@[0] == post@[post@.len() - 1]);
        assert forall|a: int, b: int| 0 <= a < b < r@.len() implies r@[a] != r@[b] by {
            assert(r@[a] == post@[post@.len() - 1 - a]);
            assert(r@[b] == post@[post@.len() - 1 - b]);
        }
    }
    r
}

proof fn lemma_chain_extend(idom: Seq<Option<usize>>, target: int, x: int, fuel: nat, d: usize)
    requires
        on_idom_chain(idom, target, x, fuel),
        0 <= target < idom.len(),
        idom[target] == Some(d),
        d != target,
    ensures
        on_idom_chain(idom, d as int, x, fuel + 1),
    decreases fuel,
{
    if x == target {
        assert(on_idom_chain(idom, d as int, d as int, fuel));
    } else if x != d {
        let y = idom[x]->0 as int;
        lemma_chain_extend(idom, target, y, (fuel - 1) as nat, d);
    }
}

proof fn lemma_chain_fuel_mono(idom: Seq<Option<usize>>, target: int, x: int, f1: nat, f2: nat)
    requires
        on_idom_chain(idom, target, x, f1),
        f1 <= f2,
    ensures
        on_idom_chain(idom, target, x, f2),
    decreases f1,
{
    if x != target {
        let y = idom[x]->0 as int;
        lemma_chain_fuel_mono(idom, target, y, (f1 - 1) as nat, (f2 - 1) as nat);
    }
}

/// The common dominator of `a` and `b`: climb from whichever comes later
/// in reverse postorder. `None` if a climb would not move strictly
/// earlier, which immediate dominators of processed nodes always do.
fn intersect(a: usize, b: usize, idom: &Vec<Option<usize>>, rpo_num: &Vec<usize>) -> (r: Option<usize>)
    requires
        a < idom@.len(),
        b < idom@.len(),
        rpo_num@.len() == idom@.len(),
        forall|k: int| 0 <= k < idom@.len() ==> (#[trigger] idom@[k] matches Some(d) ==> d < idom@.len()),
    ensures
        r matches Some(x) ==> x < idom@.len(),
        r matches Some(x) ==> on_idom_chain(idom@, x as int, a as int, rpo_num@[a as int] as nat) && on_idom_chain(
            idom@,
            x as int,
            b as int,
            rpo_num@[b as int] as nat,
        ),
{
    let ghost a0 = a;
    let ghost b0 = b;
    let mut ca = a;
    let mut cb = b;
    loop
        invariant
            ca < idom@.len(),
            cb < idom@.len(),
            a0 == a,
            b0 == b,
            a0 < idom@.len(),
            b0 < idom@.len(),
            rpo_num@.len() == idom@.len(),
            forall|k: int| 0 <= k < idom@.len() ==> (#[trigger] idom@[k] matches Some(d) ==> d < idom@.len()),
            rpo_num@[ca as int] <= rpo_num@[a0 as int],
            rpo_num@[cb as int] <= rpo_num@[b0 as int],
            on_idom_chain(idom@, ca as int, a0 as int, (rpo_num@[a0 as int] - rpo_num@[ca as int]) as nat),
            on_idom_chain(idom@, cb as int, b0 as int, (rpo_num@[b0 as int] - rpo_num@[cb as int]) as nat),
        decreases rpo_num@[ca as int] + rpo_num@[cb as int],
    {
        if ca == cb {
            proof {
                lemma_chain_fuel_mono(
                    idom@,
                    ca as int,
                    a0 as int,
                    (rpo_num@[a0 as int] - rpo_num@[ca as int]) as nat,
                    rpo_num@[a0 as int] as nat,
                );
                lemma_chain_fuel_mono(
                    idom@,
                    cb as int,
                    b0 as int,
                    (rpo_num@[b0 as int] - rpo_num@[cb as int]) as nat,
                    rpo_num@[b0 as int] as nat,
                );
            }
            return Some(ca);
        }
        if rpo_num[ca] > rpo_num[cb] {
            match idom[ca] {
                Some(d) => {
                    if rpo_num[d] >= rpo_num[ca] {
                        return None;
                    }
                    proof {
                        lemma_chain_extend(
                            idom@,
                            ca as int,
                            a0 as int,
                            (rpo_num@[a0 as int] - rpo_num@[ca as int]) as nat,
                            d,
                        );
                        lemma_chain_fuel_mono(
                            idom@,
                            d as int,
                            a0 as int,
                            (rpo_num@[a0 as int] - rpo_num@[ca as int] + 1) as nat,
                            (rpo_num@[a0 as int] - rpo_num@[d as int]) as nat,
                        );
                    }
                    ca = d;
                },
                None => return None,
            }
        } else if rpo_num[cb] > rpo_num[ca] {
            match idom[cb] {
                Some(d) => {
                    if rpo_num[d] >= rpo_num[cb] {
                        return None;
                    }
                    proof {
                        lemma_chain_extend(
                            idom@,
                            cb as int,
                            b0 as int,
                            (rpo_num@[b0 as int] - rpo_num@[cb as int]) as nat,
                            d,
                        );
                        lemma_chain_fuel_mono(
                            idom@,
                            d as int,
                            b0 as int,
                            (rpo_num@[b0 as int] - rpo_num@[cb as int] + 1) as nat,
                            (rpo_num@[b0 as int] - rpo_num@[d as int]) as nat,
                        );
                    }
                    cb = d;
                },
                None => return None,
            }
        } else {
            return None;
        }
    }
}

/// Immediate dominators over `succ` rooted at `entry` (Cooper, Harvey and
/// Kennedy): `idom[entry] == entry`, unreachable nodes stay `None`. The
/// iteration stops when a pass changes nothing; on reverse postorder that
/// takes at most the graph's loop connectedness plus three passes, so
/// `n + 3` passes always suffice.
pub fn dominators(n: usize, entry: usize, pred: &Vec<Vec<usize>>, succ: &Vec<Vec<usize>>) -> (r: Vec<
    Option<usize>,
>)
    requires
        entry < n,
        pred@.len() == n,
        succ@.len() == n,
        lists_below(pred@, n as int),
        lists_below(succ@, n as int),
        n < usize::MAX - 3,
    ensures
        r@.len() == n,
        forall|k: int| 0 <= k < n ==> (#[trigger] r@[k] matches Some(d) ==> d < n),
        r@[entry as int] == Some(entry),
        forall|k: int| 0 <= k < n && (#[trigger] r@[k]) is Some ==> reachable(succ@, entry as int, k),
{
    let rpo = reverse_postorder(n, entry, succ);
    let mut rpo_num: Vec<usize> = Vec::new();
    let mut idom: Vec<Option<usize>> = Vec::new();
    let mut k: usize = 0;
    while k < n
        invariant
            k <= n,
            rpo_num@.len() == k,
            idom@.len() == k,
            forall|q: int| 0 <= q < k ==> (#[trigger] idom@[q] matches Some(d) ==> d < n),
            forall|q: int| 0 <= q < k ==> (#[trigger] idom@[q]) is None,
        decreases n - k,
    {
        rpo_num.push(usize::MAX);
        idom.push(None);
        k = k + 1;
    }
    let mut i: usize = 0;
    while i < rpo.len()
        invariant
            rpo_num@.len() == n,
            forall|q: int| 0 <= q < rpo@.len() ==> rpo@[q] < n,
        decreases rpo@.len() - i,
    {
        rpo_num.set(rpo[i], i);
        i = i + 1;
    }
    idom.set(entry, Some(entry));
    proof {
        assert(reach_in(succ@, entry as int, entry as int, 0));
        assert forall|q: int| 0 <= q < n && (#[trigger] idom@[q]) is Some implies reachable(succ@, entry as int, q) by {
            assert(q == entry);
            assert(reach_in(succ@, entry as int, q, 0));
        }
    }
    let mut changed = true;
    let mut passes: usize = 0;
    while changed && passes < n + 3
        invariant
            idom@.len() == n,
            rpo_num@.len() == n,
            pred@.len() == n,
            lists_below(pred@, n as int),
            forall|q: int| 0 <= q < rpo@.len() ==> rpo@[q] < n,
            forall|q: int| 0 <= q < n ==> (#[trigger] idom@[q] matches Some(d) ==> d < n),
            n < usize::MAX - 3,
            entry < n,
            idom@[entry as int] == Some(entry),
            forall|q: int| 0 <= q < n && (#[trigger] idom@[q]) is Some ==> reachable(succ@, entry as int, q),
            forall|q: int| 0 <= q < rpo@.len() ==> reachable(succ@, entry as int, #[trigger] rpo@[q] as int),
            succ@.len() == n,
        decreases n + 3 - passes,
    {
        changed = false;
        let mut j: usize = 0;
        while j < rpo.len()
            invariant
                idom@.len() == n,
                rpo_num@.len() == n,
                pred@.len() == n,
                lists_below(pred@, n as int),
                forall|q: int| 0 <= q < rpo@.len() ==> rpo@[q] < n,
                forall|q: int| 0 <= q < n ==> (#[trigger] idom@[q] matches Some(d) ==> d < n),
                entry < n,
                idom@[entry as int] == Some(entry),
                forall|q: int| 0 <= q < n && (#[trigger] idom@[q]) is Some ==> reachable(succ@, entry as int, q),
                forall|q: int| 0 <= q < rpo@.len() ==> reachable(succ@, entry as int, #[trigger] rpo@[q] as int),
                succ@.len() == n,
            decreases rpo@.len() - j,
        {
            let b = rpo[j];
            if b != entry {
                let mut new_idom: Option<usize> = None;
                let ps = &pred[b];
                let mut m: usize = 0;
                while m < ps.len()
                    invariant
                        idom@.len() == n,
                        rpo_num@.len() == n,
                        b < n,
                        pred@.len() == n,
                        *ps == pred@[b as int],
                        lists_below(pred@, n as int),
                        forall|q: int| 0 <= q < n ==> (#[trigger] idom@[q] matches Some(d) ==> d < n),
                        new_idom matches Some(x) ==> x < n,
                        entry < n,
                        idom@[entry as int] == Some(entry),
                        forall|q: int| 0 <= q < n && (#[trigger] idom@[q]) is Some ==> reachable(succ@, entry as int, q),
                    decreases ps@.len() - m,
                {
                    let p = ps[m];
                    assert(pred@[b as int]@[m as int] < n);
                    if idom[p].is_some() {
                        new_idom = match new_idom {
                            None => Some(p),
                            Some(cur) => match intersect(p, cur, &idom, &rpo_num) {
                                Some(x) => Some(x),
                                None => Some(cur),
                            },
                        };
                    }
                    m = m + 1;
                }
                if new_idom.is_some() && idom[b] != new_idom {
                    proof {
                        assert(reachable(succ@, entry as int, rpo@[j as int] as int));
                    }
                    idom.set(b, new_idom);
                    changed = true;
                }
            }
            j = j + 1;
        }
        passes = passes + 1;
    }
    idom
}

/// Immediate post-dominators: dominators of the reversed graph rooted at a
/// virtual exit (index `n`) that reaches every block without successors.
/// `Some(n)` means the paths only meet at the function's end.
pub fn post_dominators(n: usize, succ: &Vec<Vec<usize>>) -> (r: Vec<Option<usize>>)
    requires
        succ@.len() == n,
        lists_below(succ@, n as int),
        n < usize::MAX - 4,
    ensures
        r@.len() == n,
        forall|k: int| 0 <= k < n ==> (#[trigger] r@[k] matches Some(d) ==> d <= n),
{
    let exit = n;
    let size = n + 1;
    let mut rsucc: Vec<Vec<usize>> = Vec::new();
    let mut rpred: Vec<Vec<usize>> = Vec::new();
    let mut k: usize = 0;
    while k < size
        invariant
            k <= size,
            size == n + 1,
            rsucc@.len() == k,
            rpred@.len() == k,
            lists_below(rsucc@, size as int),
            lists_below(rpred@, size as int),
        decreases size - k,
    {
        rsucc.push(Vec::new());
        rpred.push(Vec::new());
        k = k + 1;
    }
    let mut b: usize = 0;
    while b < n
        invariant
            size == n + 1,
            exit == n,
            succ@.len() == n,
            lists_below(succ@, n as int),
            rsucc@.len() == size,
            rpred@.len() == size,
            lists_below(rsucc@, size as int),
            lists_below(rpred@, size as int),
        decreases n - b,
    {
        let ss = &succ[b];
        let mut j: usize = 0;
        while j < ss.len()
            invariant
                size == n + 1,
                b < n,
                succ@.len() == n,
                *ss == succ@[b as int],
                lists_below(succ@, n as int),
                rsucc@.len() == size,
                rpred@.len() == size,
                lists_below(rsucc@, size as int),
                lists_below(rpred@, size as int),
            decreases ss@.len() - j,
        {
            let s = ss[j];
            assert(succ@[b as int]@[j as int] < n);
            push_to(&mut rsucc, s, b);
            push_to(&mut rpred, b, s);
            j = j + 1;
        }
        if ss.len() == 0 {
            push_to(&mut rsucc, exit, b);
            push_to(&mut rpred, b, exit);
        }
        b = b + 1;
    }
    let idom = dominators(size, exit, &rpred, &rsucc);
    let mut r: Vec<Option<usize>> = Vec::new();
    let mut i: usize = 0;
    while i < n
        invariant
            i <= n,
            idom@.len() == size,
            size == n + 1,
            r@.len() == i,
            forall|q: int| 0 <= q < size ==> (#[trigger] idom@[q] matches Some(d) ==> d < size),
            forall|q: int| 0 <= q < i ==> (#[trigger] r@[q] matches Some(d) ==> d <= n),
        decreases n - i,
    {
        r.push(idom[i]);
        i = i + 1;
    }
    r
}

/// Appends `x` to list `i`, keeping all entries below `bound`.
fn push_to(lists: &mut Vec<Vec<usize>>, i: usize, x: usize)
    requires
        i < old(lists)@.len(),
    ensures
        final(lists)@.len() == old(lists)@.len(),
        forall|k: int| 0 <= k < final(lists)@.len() && k != i ==> final(lists)@[k] == old(lists)@[k],
        final(lists)@[i as int]@ == old(lists)@[i as int]@.push(x),
        forall|bound: int| lists_below(old(lists)@, bound) && x < bound ==> lists_below(final(lists)@, bound),
{
    let mut v = lists[i].clone();
    v.push(x);
    lists.set(i, v);
    proof {
        assert forall|bound: int| lists_below(old(lists)@, bound) && x < bound implies lists_below(lists@, bound) by {
            assert forall|a: int, c: int| 0 <= a < lists@.len() && 0 <= c < lists@[a]@.len() implies #[trigger] lists@[a]@[c] < bound by {
                if a == i {
                    if c < old(lists)@[a]@.len() {
                        assert(lists@[a]@[c] == old(lists)@[a]@[c]);
                    }
                } else {
                    assert(lists@[a] == old(lists)@[a]);
                }
            }
        }
    }
}

/// `a` is `x`, or is reached from `x` along the immediate-dominator chain
/// within `fuel` steps; a node without an immediate dominator, or that is
/// its own, ends the chain.
pub open spec fn on_idom_chain(idom: Seq<Option<usize>>, a: int, x: int, fuel: nat) -> bool
    decreases fuel,
{
    if x == a {
        true
    } else if fuel == 0 {
        false
    } else if 0 <= x < idom.len() {
        match idom[x] {
            Some(d) => d != x && on_idom_chain(idom, a, d as int, (fuel - 1) as nat),
            None => false,
        }
    } else {
        false
    }
}

/// Whether `a` is on the dominator chain of `b` (every node dominates
/// itself). The chain of a tree of immediate dominators has at most one
/// node per index, so `idom.len()` steps reach its root.
pub fn dominates(idom: &Vec<Option<usize>>, a: usize, b: usize) -> (r: bool)
    requires
        b < idom@.len(),
        idom@.len() < usize::MAX,
        forall|k: int| 0 <= k < idom@.len() ==> (#[trigger] idom@[k] matches Some(d) ==> d < idom@.len()),
    ensures
        r == on_idom_chain(idom@, a as int, b as int, idom@.len()),
{
    let mut x = b;
    let mut steps: usize = 0;
    while steps <= idom.len()
        invariant
            x < idom@.len(),
            idom@.len() < usize::MAX,
            steps <= idom@.len() + 1,
            forall|k: int| 0 <= k < idom@.len() ==> (#[trigger] idom@[k] matches Some(d) ==> d < idom@.len()),
            on_idom_chain(idom@, a as int, b as int, idom@.len()) == (steps <= idom@.len() && on_idom_chain(
                idom@,
                a as int,
                x as int,
                (idom@.len() - steps) as nat,
            )),
        decreases idom@.len() + 1 - steps,
    {
        if x == a {
            return true;
        }
        match idom[x] {
            Some(d) => {
                if d == x {
                    return false;
                }
                x = d;
            },
            None => return false,
        }
        steps = steps + 1;
    }
    false
}

/// `q` reaches `back_source` in at most `k` steps without passing
/// `header`: a chain of predecessors from `back_source` to `q` whose
/// members before `q` are not the header.
pub open spec fn reaches_back_in(pred: Seq<Vec<usize>>, header: int, back_source: int, q: int, k: nat) -> bool
    decreases k,
{
    if k == 0 {
        q == back_source
    } else {
        reaches_back_in(pred, header, back_source, q, (k - 1) as nat) || exists|y: int, c: int|
            0 <= y < pred.len() && y != header && 0 <= c < pred[y]@.len() && #[trigger] pred[y]@[c] == q
                && reaches_back_in(pred, header, back_source, y, (k - 1) as nat)
    }
}

/// `q` reaches `back_source` without passing `header`.
pub open spec fn reaches_back(pred: Seq<Vec<usize>>, header: int, back_source: int, q: int) -> bool {
    exists|k: nat| reaches_back_in(pred, header, back_source, q, k)
}

/// A set holding `back_source` that holds the predecessors of its members
/// other than `header` holds every node that reaches `back_source` without
/// passing `header`.
proof fn lemma_closed_holds_loop(pred: Seq<Vec<usize>>, header: int, back_source: int, set: Seq<bool>, q: int, k: nat)
    requires
        set.len() == pred.len(),
        lists_below(pred, pred.len() as int),
        0 <= back_source < set.len(),
        set[back_source],
        forall|y: int, c: int|
            0 <= y < pred.len() && set[y] && y != header && 0 <= c < pred[y]@.len() ==> set[#[trigger] pred[y]@[c] as int],
        reaches_back_in(pred, header, back_source, q, k),
    ensures
        0 <= q < set.len() && set[q],
    decreases k,
{
    if k > 0 {
        if reaches_back_in(pred, header, back_source, q, (k - 1) as nat) {
            lemma_closed_holds_loop(pred, header, back_source, set, q, (k - 1) as nat);
        } else {
            let (y, c) = choose|y: int, c: int|
                0 <= y < pred.len() && y != header && 0 <= c < pred[y]@.len() && #[trigger] pred[y]@[c] == q
                    && reaches_back_in(pred, header, back_source, y, (k - 1) as nat);
            lemma_closed_holds_loop(pred, header, back_source, set, y, (k - 1) as nat);
        }
    }
}

/// The natural loop of the back edge `back_source -> header`: the header
/// and every block that reaches `back_source` without passing the header.
pub fn natural_loop_body(pred: &Vec<Vec<usize>>, header: usize, back_source: usize) -> (r: Vec<bool>)
    requires
        header < pred@.len(),
        back_source < pred@.len(),
        lists_below(pred@, pred@.len() as int),
    ensures
        r@.len() == pred@.len(),
        r@[header as int],
        r@[back_source as int],
        forall|q: int, k: int|
            0 <= q < r@.len() && r@[q] && q != header && 0 <= k < pred@[q]@.len() ==> r@[#[trigger] pred@[q]@[k] as int],
        forall|q: int|
            0 <= q < r@.len() && #[trigger] r@[q] ==> q == header || reaches_back(
                pred@,
                header as int,
                back_source as int,
                q,
            ),
        forall|q: int| #[trigger] reaches_back(pred@, header as int, back_source as int, q) ==> 0 <= q < r@.len() && r@[q],
{
    let n = pred.len();
    let mut set: Vec<bool> = Vec::new();
    let mut k: usize = 0;
    while k < n
        invariant
            k <= n,
            set@.len() == k,
            forall|q: int| 0 <= q < k ==> !set@[q],
        decreases n - k,
    {
        set.push(false);
        k = k + 1;
    }
    set.set(header, true);
    set.set(back_source, true);
    let mut stack: Vec<usize> = Vec::new();
    stack.push(back_source);
    let ghost mut done: Seq<bool> = Seq::new(n as nat, |q: int| false);
    let ghost mut level: Seq<nat> = Seq::new(n as nat, |q: int| 0nat);
    proof {
        assert(stack@[0] == back_source);
        assert forall|q: int|
            0 <= q < n && #[trigger] set@[q] && q != header && !done[q] implies exists|i: int|
            0 <= i < stack@.len() && stack@[i] == q by {
            assert(q == back_source);
            assert(stack@[0] == q);
        }
    }
    proof {
        assert forall|q: int| 0 <= q < n && #[trigger] set@[q] && q != header implies reaches_back_in(
            pred@,
            header as int,
            back_source as int,
            q,
            level[q],
        ) by {
            assert(q == back_source);
        }
    }
    while stack.len() > 0
        invariant
            forall|i: int| 0 <= i < stack@.len() ==> set@[#[trigger] stack@[i] as int],
            level.len() == n,
            forall|q: int|
                0 <= q < n && #[trigger] set@[q] && q != header ==> reaches_back_in(
                    pred@,
                    header as int,
                    back_source as int,
                    q,
                    level[q],
                ),
            done.len() == n,
            forall|q: int, k: int|
                0 <= q < n && done[q] && 0 <= k < pred@[q]@.len() ==> set@[#[trigger] pred@[q]@[k] as int],
            forall|q: int|
                0 <= q < n && #[trigger] set@[q] && q != header && !done[q] ==> exists|i: int|
                    0 <= i < stack@.len() && stack@[i] == q,
            set@.len() == n,
            n == pred@.len(),
            lists_below(pred@, n as int),
            header < n,
            back_source < n,
            set@[header as int],
            set@[back_source as int],
            forall|q: int| 0 <= q < stack@.len() ==> stack@[q] < n,
        decreases count_false(set@), stack@.len(),
    {
        let ghost stack_before = stack@;
        let b = stack.pop().unwrap();
        proof {
            assert(b == stack_before.last());
            assert(set@[stack_before[stack_before.len() - 1] as int]);
            assert forall|i: int| 0 <= i < stack@.len() implies set@[#[trigger] stack@[i] as int] by {
                assert(stack@[i] == stack_before[i]);
            }
            assert forall|q: int|
                0 <= q < n && #[trigger] set@[q] && q != header && !done[q] && q != b implies exists|i: int|
                0 <= i < stack@.len() && stack@[i] == q by {
                let i = choose|i: int| 0 <= i < stack_before.len() && stack_before[i] == q;
                assert(i < stack_before.len() - 1);
                assert(stack@[i] == stack_before[i]);
            }
        }
        if b != header {
            let ps = &pred[b];
            let ghost set0 = set@;
            let ghost len0 = stack@.len();
            let ghost stack0 = stack@;
            let mut j: usize = 0;
            while j < ps.len()
                invariant
                    forall|i: int| 0 <= i < stack@.len() ==> set@[#[trigger] stack@[i] as int],
                    level.len() == n,
                    set@[b as int],
                    b != header,
                    forall|q: int|
                        0 <= q < n && #[trigger] set@[q] && q != header ==> reaches_back_in(
                            pred@,
                            header as int,
                            back_source as int,
                            q,
                            level[q],
                        ),
                    done.len() == n,
                    forall|q: int, k: int|
                        0 <= q < n && done[q] && 0 <= k < pred@[q]@.len() ==> set@[#[trigger] pred@[q]@[k] as int],
                    forall|q: int|
                        0 <= q < n && #[trigger] set@[q] && q != header && !done[q] && q != b ==> exists|i: int|
                            0 <= i < stack@.len() && stack@[i] == q,
                    forall|k: int| 0 <= k < j ==> set@[#[trigger] pred@[b as int]@[k] as int],
                    set@.len() == n,
                    n == pred@.len(),
                    b < n,
                    *ps == pred@[b as int],
                    lists_below(pred@, n as int),
                    header < n,
                    back_source < n,
                    set@[header as int],
                    set@[back_source as int],
                    grows(set0, set@),
                    forall|q: int| 0 <= q < stack@.len() ==> stack@[q] < n,
                    stack@.len() >= len0,
                    stack@.len() > len0 ==> count_false(set@) < count_false(set0),
                    stack@.len() == len0 ==> count_false(set@) <= count_false(set0),
                decreases ps@.len() - j,
            {
                let p = ps[j];
                assert(pred@[b as int]@[j as int] < n);
                if !set[p] {
                    let ghost before = set@;
                    let ghost stack1 = stack@;
                    proof {
                        let kk = level[b as int];
                        assert(pred@[b as int]@[j as int] == p);
                        assert(set@[b as int] && b != header);
                        assert(reaches_back_in(pred@, header as int, back_source as int, b as int, kk));
                        assert(((kk + 1) - 1) as nat == kk);
                        assert(0 <= b < pred@.len() && b != header && 0 <= j < pred@[b as int]@.len());
                        assert(reaches_back_in(pred@, header as int, back_source as int, p as int, kk + 1));
                        level = level.update(p as int, kk + 1);
                    }
                    set.set(p, true);
                    proof {
                        assert(set@ == before.update(p as int, true));
                        assert(set@[header as int]);
                        assert(set@[back_source as int]);
                        lemma_count_false_set(before, p as int);
                        lemma_count_false_grows(set0, before);
                        assert(grows(set0, set@)) by {
                            assert forall|q: int| 0 <= q < set0.len() && #[trigger] set0[q] implies set@[q] by {
                                assert(before[q]);
                            }
                        }
                    }
                    stack.push(p);
                    proof {
                        assert(stack@[stack@.len() - 1] == p);
                        assert forall|i: int| 0 <= i < stack@.len() implies set@[#[trigger] stack@[i] as int] by {
                            if i < stack1.len() {
                                assert(stack@[i] == stack1[i]);
                                assert(before[stack1[i] as int]);
                            }
                        }
                        assert forall|q: int|
                            0 <= q < n && #[trigger] set@[q] && q != header && !done[q] && q != b implies exists|i: int|
                            0 <= i < stack@.len() && stack@[i] == q by {
                            if q != p as int {
                                assert(before[q]);
                                let i = choose|i: int| 0 <= i < stack1.len() && stack1[i] == q;
                                assert(stack@[i] == stack1[i]);
                            }
                        }
                    }
                }
                j = j + 1;
            }
            proof {
                done = done.update(b as int, true);
            }
        }
    }
    proof {
        assert forall|q: int| 0 <= q < set@.len() && #[trigger] set@[q] implies q == header || reaches_back(
            pred@,
            header as int,
            back_source as int,
            q,
        ) by {
            if q != header {
                assert(reaches_back_in(pred@, header as int, back_source as int, q, level[q]));
            }
        }
        assert forall|q: int, k: int|
            0 <= q < set@.len() && set@[q] && q != header && 0 <= k < pred@[q]@.len() implies set@[
            #[trigger] pred@[q]@[k] as int] by {
            if !done[q] {
                let i = choose|i: int| 0 <= i < stack@.len() && stack@[i] == q;
            }
        }
    }
    proof {
        assert forall|q: int| #[trigger] reaches_back(pred@, header as int, back_source as int, q) implies 0 <= q
            < set@.len() && set@[q] by {
            let k = choose|k: nat| reaches_back_in(pred@, header as int, back_source as int, q, k);
            lemma_closed_holds_loop(pred@, header as int, back_source as int, set@, q, k);
        }
    }
    set
}

} // verus!
