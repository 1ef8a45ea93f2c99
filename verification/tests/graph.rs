use cs2script::transpile::graph::{dominators, natural_loop_body, reverse_postorder};

#[test]
fn reverse_postorder_lists_every_reachable_node_once() {
    // 0 -> 1 -> 2 -> 1, 0 -> 3; node 4 is unreachable
    let succ = vec![vec![1, 3], vec![2], vec![1], vec![], vec![0]];
    let order = reverse_postorder(5, 0, &succ);
    assert_eq!(order[0], 0);
    for node in [0usize, 1, 2, 3] {
        assert_eq!(order.iter().filter(|&&x| x == node).count(), 1);
    }
    assert!(!order.contains(&4));
}

#[test]
fn entry_dominates_itself() {
    let succ = vec![vec![1, 2], vec![3], vec![3], vec![]];
    let pred = vec![vec![], vec![0], vec![0], vec![1, 2]];
    let idom = dominators(4, 0, &pred, &succ);
    assert_eq!(idom[0], Some(0));
    assert_eq!(idom[3], Some(0));
}

#[test]
fn natural_loop_is_closed_under_predecessors() {
    // 0 -> 1 -> 2 -> 3 -> 1 (back edge 3 -> 1), 2 -> 4
    let pred = vec![vec![], vec![0, 3], vec![1], vec![2], vec![2]];
    let body = natural_loop_body(&pred, 1, 3);
    assert_eq!(body, vec![false, true, true, true, false]);
}
