//! Behaviour of the queue-backed sequence generator.

use transiter::TransIter;

/// A small tree: root id 1 with children id 2 (which has a further child
/// id 4) and id 3.
fn small_tree() -> (u64, Vec<(u64, Vec<u64>)>) {
    (1, vec![(1, vec![2, 3]), (2, vec![4]), (3, vec![]), (4, vec![])])
}

fn children_of(table: &[(u64, Vec<u64>)], id: u64) -> Vec<u64> {
    table
        .iter()
        .find(|(node, _)| *node == id)
        .map(|(_, kids)| kids.clone())
        .unwrap_or_default()
}

fn drain<F: Fn(&u64) -> Vec<u64>>(mut it: TransIter<F, u64>) -> Vec<u64> {
    let mut out = Vec::new();
    while let Some(item) = it.next() {
        out.push(item);
    }
    out
}

#[test]
fn breadth_first_string_example() {
    let mut it = TransIter::new(String::new(), |s: &String| {
        let mut found = Vec::new();
        for part in ["a", "b", "c"] {
            found.push(s.clone() + part);
        }
        found
    });
    let mut names = Vec::new();
    for _ in 0..10 {
        names.push(it.next().unwrap());
    }
    assert_eq!(
        names,
        vec!["", "a", "b", "c", "aa", "ab", "ac", "ba", "bb", "bc"]
    );
}

#[test]
fn breadth_first_is_the_default_and_explicit() {
    let seed = String::new();
    let recursion = |s: &String| {
        let mut found = Vec::new();
        for part in ["x", "y"] {
            found.push(s.clone() + part);
        }
        found
    };
    let mut by_default = TransIter::new(seed.clone(), recursion);
    let mut explicit = TransIter::new(seed, recursion).breadth_first();
    for _ in 0..7 {
        assert_eq!(by_default.next(), explicit.next());
    }
}

#[test]
fn depth_first_tree_example() {
    let (root, table) = small_tree();
    let it = TransIter::new(root, move |id: &u64| children_of(&table, *id)).depth_first();
    assert_eq!(drain(it), vec![1, 2, 4, 3]);
}

#[test]
fn depth_first_unordered_tree_example() {
    let (root, table) = small_tree();
    let it =
        TransIter::new(root, move |id: &u64| children_of(&table, *id)).depth_first_unordered();
    assert_eq!(drain(it), vec![1, 3, 2, 4]);
}

#[test]
fn every_mode_produces_each_node_once() {
    let (root, table) = small_tree();
    let node_count = table.len();
    for mode in 0..3u8 {
        let table = table.clone();
        let it = TransIter::new(root, move |id: &u64| children_of(&table, *id));
        let it = match mode {
            0 => it.breadth_first(),
            1 => it.depth_first(),
            _ => it.depth_first_unordered(),
        };
        let produced = drain(it);
        assert_eq!(produced.len(), node_count);
        let mut sorted = produced.clone();
        sorted.sort();
        assert_eq!(sorted, vec![1, 2, 3, 4]);
    }
}

#[test]
fn new_multi_keeps_initial_order() {
    let mut it = TransIter::new_multi(vec![7u64, 8, 9], |_: &u64| Vec::new());
    assert_eq!(it.next(), Some(7));
    assert_eq!(it.next(), Some(8));
    assert_eq!(it.next(), Some(9));
    assert_eq!(it.next(), None);
}

#[test]
fn empty_initial_queue_is_exhausted_at_once() {
    let mut it = TransIter::new_multi(Vec::new(), |n: &u64| vec![*n]);
    assert_eq!(it.next(), None);
}

#[test]
fn exhausted_generator_stays_exhausted() {
    let mut it = TransIter::new(0u64, |_: &u64| Vec::new());
    assert_eq!(it.next(), Some(0));
    assert_eq!(it.next(), None);
    assert_eq!(it.next(), None);
}

#[test]
fn same_setup_produces_same_sequence() {
    let (root, table) = small_tree();
    for mode in 0..3u8 {
        let build = |table: Vec<(u64, Vec<u64>)>| {
            let it = TransIter::new(root, move |id: &u64| children_of(&table, *id));
            match mode {
                0 => it.breadth_first(),
                1 => it.depth_first(),
                _ => it.depth_first_unordered(),
            }
        };
        let first = drain(build(table.clone()));
        let second = drain(build(table.clone()));
        assert_eq!(first, second);
    }
}

#[test]
fn pull_many_collects_in_production_order() {
    let mut it = TransIter::new(String::new(), |s: &String| {
        if s.len() >= 2 {
            Vec::new()
        } else {
            vec![s.clone() + "a", s.clone() + "b"]
        }
    });
    let first_three = it.pull_many(3);
    assert_eq!(first_three, vec!["", "a", "b"]);
    let rest = it.pull_many(100);
    assert_eq!(rest, vec!["aa", "ab", "ba", "bb"]);
    assert_eq!(it.pull_many(4), Vec::<String>::new());
}

#[test]
fn cloned_generator_forks_the_traversal() {
    let mut it = TransIter::new(1u64, |n: &u64| if *n < 4 { vec![*n * 2] } else { Vec::new() });
    assert_eq!(it.next(), Some(1));
    let fork = it.clone();
    assert_eq!(it.next(), Some(2));
    assert_eq!(drain(fork), vec![2, 4]);
    assert_eq!(drain(it), vec![4]);
}

#[test]
fn mode_can_change_between_pulls() {
    let (root, table) = small_tree();
    let mut it = TransIter::new(root, move |id: &u64| children_of(&table, *id));
    // One breadth-first pull leaves the children 2 and 3 pending; switching
    // to depth first then explores below 2 before 3.
    assert_eq!(it.next(), Some(1));
    let mut it = it.depth_first();
    assert_eq!(it.next(), Some(2));
    assert_eq!(it.next(), Some(4));
    assert_eq!(it.next(), Some(3));
    assert_eq!(it.next(), None);
}
