//! Behaviour of the entry-point adapters.

use transiter::AutoTransIter;
use transiter::IntoTransIter;

#[test]
fn trans_iter_with_seeds_with_the_value() {
    let mut it = String::new().trans_iter_with(|s: &String| {
        let mut found = Vec::new();
        for part in ["a", "b", "c"] {
            found.push(s.clone() + part);
        }
        found
    });
    let mut names = Vec::new();
    for _ in 0..10 {
        names.push(it.next().unwrap());
    }
    assert_eq!(
        names,
        vec!["", "a", "b", "c", "aa", "ab", "ac", "ba", "bb", "bc"]
    );
}

#[test]
fn trans_prio_queue_with_seeds_with_the_value() {
    let mut pq =
        4u64.trans_prio_queue_with(|n: &u64| if *n > 0 { vec![*n - 1] } else { Vec::new() });
    let mut out = Vec::new();
    while let Some(n) = pq.next() {
        out.push(n);
    }
    assert_eq!(out, vec![4, 3, 2, 1, 0]);
}

#[test]
fn into_initial_items_of_a_value_is_the_value() {
    assert_eq!(9u64.into_initial_items(), vec![9u64]);
}

/// A tree node with its intrinsic recursion: its children.
#[derive(Clone, PartialEq, Debug)]
struct Node {
    id: u64,
    children: Vec<Node>,
}

impl AutoTransIter<Node> for Node {
    // The ghost half of the trait is erased from compiled code and never
    // runs; only its signature is left to satisfy.
    fn recurse_spec(_: Node) -> vstd::seq::Seq<Node> {
        panic!()
    }

    fn recurse(item: &Node) -> Vec<Node> {
        item.children.clone()
    }
}

fn small_tree() -> Node {
    Node {
        id: 1,
        children: vec![
            Node {
                id: 2,
                children: vec![Node { id: 4, children: vec![] }],
            },
            Node { id: 3, children: vec![] },
        ],
    }
}

#[test]
fn trans_iter_uses_the_intrinsic_recursion() {
    let mut it = small_tree().trans_iter();
    let mut ids = Vec::new();
    while let Some(node) = it.next() {
        ids.push(node.id);
    }
    assert_eq!(ids, vec![1, 2, 3, 4]);
}

#[test]
fn intrinsic_depth_first_matches_tree_order() {
    let mut it = small_tree().trans_iter().depth_first();
    let mut ids = Vec::new();
    while let Some(node) = it.next() {
        ids.push(node.id);
    }
    assert_eq!(ids, vec![1, 2, 4, 3]);
}

#[test]
fn intrinsic_pull_many_collects_in_production_order() {
    let mut it = small_tree().trans_iter();
    let first_two: Vec<u64> = it.pull_many(2).into_iter().map(|n| n.id).collect();
    assert_eq!(first_two, vec![1, 2]);
    let rest: Vec<u64> = it.pull_many(10).into_iter().map(|n| n.id).collect();
    assert_eq!(rest, vec![3, 4]);
    assert_eq!(it.pull_many(1).len(), 0);
}

#[test]
fn intrinsic_depth_first_unordered_reverses_siblings() {
    let mut it = small_tree().trans_iter().depth_first_unordered();
    let mut ids = Vec::new();
    while let Some(node) = it.next() {
        ids.push(node.id);
    }
    assert_eq!(ids, vec![1, 3, 2, 4]);
}
