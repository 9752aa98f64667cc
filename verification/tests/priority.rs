//! Behaviour of the heap-backed priority generator.

use transiter::TransIter;
use transiter::TransPrioQueue;

#[test]
fn produces_greatest_pending_item_first() {
    let mut pq = TransPrioQueue::new_multi(vec![1u64, 5, 3], |_: &u64| Vec::new());
    assert_eq!(pq.next(), Some(5));
    assert_eq!(pq.next(), Some(3));
    assert_eq!(pq.next(), Some(1));
    assert_eq!(pq.next(), None);
}

#[test]
fn discovered_items_compete_with_pending_ones() {
    // 6 spawns 9; 9 outranks the 7 that was pending before it.
    let mut pq = TransPrioQueue::new_multi(
        vec![6u64, 7],
        |n: &u64| if *n == 6 { vec![9u64] } else { Vec::new() },
    );
    assert_eq!(pq.next(), Some(7));
    assert_eq!(pq.next(), Some(6));
    assert_eq!(pq.next(), Some(9));
    assert_eq!(pq.next(), None);
}

#[test]
fn empty_initial_heap_is_exhausted_at_once() {
    let mut pq = TransPrioQueue::new_multi(Vec::new(), |n: &u64| vec![*n]);
    assert_eq!(pq.next(), None);
}

#[test]
fn equal_greatest_items_each_come_out() {
    let mut pq = TransPrioQueue::new_multi(vec![2u64, 2, 1], |_: &u64| Vec::new());
    assert_eq!(pq.next(), Some(2));
    assert_eq!(pq.next(), Some(2));
    assert_eq!(pq.next(), Some(1));
    assert_eq!(pq.next(), None);
}

#[test]
fn single_seed_constructor() {
    let mut pq = TransPrioQueue::new(4u64, |n: &u64| if *n > 0 { vec![*n - 1] } else { Vec::new() });
    let mut out = Vec::new();
    while let Some(n) = pq.next() {
        out.push(n);
    }
    assert_eq!(out, vec![4, 3, 2, 1, 0]);
}

#[test]
fn conversion_keeps_the_frontier() {
    // Pull the seed breadth first, then switch discipline: the two pending
    // children carry over and come out greatest first.
    let mut it = TransIter::new(10u64, |n: &u64| {
        if *n == 10 {
            vec![2u64, 8]
        } else {
            Vec::new()
        }
    });
    assert_eq!(it.next(), Some(10));
    let mut pq = it.into_trans_prio_queue();
    assert_eq!(pq.next(), Some(8));
    assert_eq!(pq.next(), Some(2));
    assert_eq!(pq.next(), None);
}

/// Minimal-cost path search over a small weighted reachability graph.
///
/// An item is a candidate path: its negated total cost, then the nodes
/// walked so far. The greatest item is the cheapest path, so the generator
/// explores best first.
#[test]
fn cheapest_completed_path_comes_out_first() {
    // Edges: 0 -> 1 costs 5, 0 -> 2 costs 1, 1 -> 3 costs 1, 2 -> 3 costs 10.
    let edges: Vec<(u8, u8, i64)> = vec![(0, 1, 5), (0, 2, 1), (1, 3, 1), (2, 3, 10)];
    let goal = 3u8;
    let extend = move |path: &(i64, Vec<u8>)| {
        let (score, nodes) = path;
        let at = *nodes.last().unwrap();
        if at == goal {
            return Vec::new();
        }
        edges
            .iter()
            .filter(|(from, _, _)| *from == at)
            .map(|(_, to, cost)| {
                let mut longer = nodes.clone();
                longer.push(*to);
                (score - cost, longer)
            })
            .collect()
    };
    let mut pq = TransPrioQueue::new((0i64, vec![0u8]), extend);
    let mut produced_complete = Vec::new();
    while let Some((score, nodes)) = pq.next() {
        if *nodes.last().unwrap() == goal {
            produced_complete.push((score, nodes));
        }
    }
    // The expensive completed path 0-2-3 (cost 11) is discovered before the
    // cheap one 0-1-3 (cost 6); the cheap one must still be produced first.
    assert_eq!(
        produced_complete,
        vec![(-6, vec![0u8, 1, 3]), (-11, vec![0u8, 2, 3])]
    );
}
