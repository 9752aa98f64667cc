//! The queue-backed sequence generator.

use std::collections::VecDeque;

use vstd::prelude::*;

use crate::Mode;
use crate::frontier::insert_found;
use crate::frontier::queue_from_vec;
use crate::model::agrees_with;
use crate::model::lemma_pull_unfold_right;
use crate::model::mode_insert;
use crate::model::produced_by;
use crate::model::pull_step;
use crate::model::remaining_after;
use crate::prio_queue::TransPrioQueue;

verus! {

/// Transitive sequence generator.
///
/// The generator produces all items which are transitively reachable from an
/// initial set of items through a given recursion function, including those
/// initial items, one item per call to [`TransIter::next`]. An item
/// discovered by a call to the recursion function is only produced after the
/// item passed in that call: if the recursion function finds the "children"
/// of a node, a node is produced only after its "parent".
///
/// By default the generator produces siblings, i.e. the items found by a
/// single call to the recursion function, grouped together. That can be
/// changed by calling [`TransIter::depth_first`] or
/// [`TransIter::depth_first_unordered`].
///
/// The generator does not filter items reachable via multiple paths, so on
/// its own it is not suitable for navigating potentially cyclic structures.
/// For such structures, consider filtering in the recursion function.
#[derive(Clone)]
#[verifier::reject_recursive_types(T)]
pub struct TransIter<F, T> where F: Fn(&T) -> Vec<T> {
    get_next: F,
    queue: VecDeque<T>,
    mode: Mode,
}

impl<F, T> TransIter<F, T> where F: Fn(&T) -> Vec<T> {
    /// The items discovered but not yet produced, in queue order.
    pub closed spec fn frontier(self) -> Seq<T> {
        self.queue@
    }

    /// The active expansion discipline.
    pub closed spec fn expansion_mode(self) -> Mode {
        self.mode
    }

    /// The recursion function the generator was created with.
    pub closed spec fn recursion(self) -> F {
        self.get_next
    }

    /// Create a new transitive sequence generator.
    ///
    /// The generator will produce all items which are transitively reachable
    /// from the `initial` item through the given `recursion` function,
    /// including `initial` itself.
    pub fn new(initial: T, recursion: F) -> (it: Self)
        ensures
            it.frontier() == seq![initial],
            it.expansion_mode() == Mode::BreadthFirst,
            it.recursion() == recursion,
    {
        let mut queue = VecDeque::new();
        queue.push_back(initial);
        proof {
            assert(queue@ =~= seq![initial]);
        }
        TransIter { get_next: recursion, queue, mode: Mode::default() }
    }

    /// Create a new transitive sequence generator with multiple initial
    /// items.
    ///
    /// The generator will produce all items which are transitively reachable
    /// from the `initial` set of items through the given `recursion`
    /// function, including the items of the initial set, which start out
    /// pending in the order given.
    pub fn new_multi(initial: Vec<T>, recursion: F) -> (it: Self)
        ensures
            it.frontier() == initial@,
            it.expansion_mode() == Mode::BreadthFirst,
            it.recursion() == recursion,
    {
        TransIter { get_next: recursion, queue: queue_from_vec(initial), mode: Mode::default() }
    }

    /// Make this generator produce breadth first.
    ///
    /// Siblings are produced grouped together, in the order they were
    /// emitted by the recursion function. This is the default discipline.
    pub fn breadth_first(self) -> (it: Self)
        ensures
            it.frontier() == self.frontier(),
            it.expansion_mode() == Mode::BreadthFirst,
            it.recursion() == self.recursion(),
    {
        TransIter { mode: Mode::BreadthFirst, ..self }
    }

    /// Make this generator produce depth first.
    ///
    /// After producing an item, the generator produces all the items
    /// reachable from it before the item's next sibling. Siblings are
    /// produced in the order they were emitted by the recursion function;
    /// preserving that order costs an extra buffering step per pull, which
    /// [`TransIter::depth_first_unordered`] avoids.
    pub fn depth_first(self) -> (it: Self)
        ensures
            it.frontier() == self.frontier(),
            it.expansion_mode() == Mode::DepthFirst,
            it.recursion() == self.recursion(),
    {
        TransIter { mode: Mode::DepthFirst, ..self }
    }

    /// Make this generator produce depth first, without preserving sibling
    /// order.
    ///
    /// After producing an item, the generator produces all the items
    /// reachable from it before the item's next sibling. Siblings are
    /// produced in the reverse of the order they were emitted by the
    /// recursion function; the reversal is an artifact of the insertion
    /// strategy, not a promise of the interface.
    pub fn depth_first_unordered(self) -> (it: Self)
        ensures
            it.frontier() == self.frontier(),
            it.expansion_mode() == Mode::DepthFirstUnordered,
            it.recursion() == self.recursion(),
    {
        TransIter { mode: Mode::DepthFirstUnordered, ..self }
    }

    /// Convert this generator into a [`TransPrioQueue`].
    ///
    /// The priority generator takes over the remaining pending items and the
    /// recursion function; from here on the greatest pending item is
    /// produced first instead of the queue order.
    pub fn into_trans_prio_queue(self) -> (pq: TransPrioQueue<F, T>) where T: Ord
        ensures
            pq.pending() == self.frontier(),
            pq.recursion() == self.recursion(),
    {
        let TransIter { get_next, mut queue, mode: _ } = self;
        let ghost all = queue@;
        let mut data: Vec<T> = Vec::new();
        proof {
            assert(data@ =~= all.take(data@.len() as int));
            assert(queue@ =~= all.skip(data@.len() as int));
        }
        while queue.len() > 0
            invariant
                data@.len() + queue@.len() == all.len(),
                data@ == all.take(data@.len() as int),
                queue@ == all.skip(data@.len() as int),
            decreases queue.len(),
        {
            let ghost k = data@.len() as int;
            let item = queue.pop_front().unwrap();
            data.push(item);
            proof {
                assert(item == all[k]);
                assert(data@ =~= all.take(k + 1));
                assert(queue@ =~= all.skip(k + 1));
            }
        }
        proof {
            assert(data@ =~= all);
        }
        TransPrioQueue::new_multi(data, get_next)
    }

    /// Produce the next item.
    ///
    /// Returns `None` exactly when no item is pending. Otherwise removes the
    /// front pending item, hands it to the recursion function, inserts
    /// everything found as the active discipline directs, and returns the
    /// removed item.
    pub fn next(&mut self) -> (produced: Option<T>)
        requires
            forall|t: &T| #[trigger] call_requires(old(self).recursion(), (t,)),
        ensures
            final(self).recursion() == old(self).recursion(),
            final(self).expansion_mode() == old(self).expansion_mode(),
            old(self).frontier().len() == 0 ==> produced is None
                && final(self).frontier() == old(self).frontier(),
            old(self).frontier().len() > 0 ==> produced == Some(old(self).frontier()[0])
                && exists|found: Vec<T>|
                    #[trigger] call_ensures(
                        old(self).recursion(),
                        (&old(self).frontier()[0],),
                        found,
                    ) && final(self).frontier() == mode_insert(
                        old(self).expansion_mode(),
                        old(self).frontier().drop_first(),
                        found@,
                    ),
    {
        let produced = self.queue.pop_front();
        match &produced {
            None => {},
            Some(item) => {
                proof {
                    assert(call_requires(old(self).recursion(), (&old(self).frontier()[0],)));
                }
                let found = (self.get_next)(item);
                let ghost witness = found;
                insert_found(&mut self.queue, self.mode, found);
                proof {
                    assert(call_ensures(
                        old(self).recursion(),
                        (&old(self).frontier()[0],),
                        witness,
                    ));
                }
            },
        }
        produced
    }

    /// Produce up to `n` items, in production order.
    ///
    /// Equivalent to calling [`TransIter::next`] `n` times and collecting
    /// what comes out; fewer than `n` items come out exactly when the
    /// generator runs dry first.
    ///
    /// When the recursion function computes one fixed sequence per item, the
    /// result is the one traversal [`produced_by`] describes: it depends
    /// only on the initial pending items, the discipline, and that
    /// per-item sequence, so any two generators set up alike produce alike.
    pub fn pull_many(&mut self, n: usize) -> (produced: Vec<T>)
        requires
            forall|t: &T| #[trigger] call_requires(old(self).recursion(), (t,)),
        ensures
            final(self).recursion() == old(self).recursion(),
            final(self).expansion_mode() == old(self).expansion_mode(),
            forall|c: spec_fn(T) -> Seq<T>|
                #[trigger] agrees_with(old(self).recursion(), c) ==> produced@ == produced_by(
                    old(self).expansion_mode(),
                    old(self).frontier(),
                    c,
                    n as nat,
                ) && final(self).frontier() == remaining_after(
                    old(self).expansion_mode(),
                    old(self).frontier(),
                    c,
                    n as nat,
                ),
    {
        let ghost q0 = self.frontier();
        let ghost m = self.mode;
        let ghost f = self.get_next;
        let mut produced: Vec<T> = Vec::new();
        let mut i: usize = 0;
        proof {
            assert forall|t: &T| #[trigger] call_requires(f, (t,)) by {
                assert(call_requires(old(self).recursion(), (t,)));
            }
        }
        while i < n
            invariant
                i <= n,
                self.get_next == f,
                self.mode == m,
                forall|t: &T| #[trigger] call_requires(f, (t,)),
                forall|c: spec_fn(T) -> Seq<T>|
                    #[trigger] agrees_with(f, c) ==> produced@ == produced_by(m, q0, c, i as nat)
                        && self.queue@ == remaining_after(m, q0, c, i as nat),
            decreases n - i,
        {
            let ghost before = self.queue@;
            let ghost produced_before = produced@;
            proof {
                assert forall|t: &T| #[trigger] call_requires(self.recursion(), (t,)) by {
                    assert(call_requires(f, (t,)));
                }
            }
            let item = self.next();
            match item {
                Some(pulled) => {
                    produced.push(pulled);
                    proof {
                        assert forall|c: spec_fn(T) -> Seq<T>| #[trigger] agrees_with(f, c)
                            implies produced@ == produced_by(m, q0, c, (i + 1) as nat)
                                && self.queue@ == remaining_after(m, q0, c, (i + 1) as nat) by {
                            let found = choose|found: Vec<T>|
                                call_ensures(f, (&before[0],), found) && self.queue@
                                    == mode_insert(m, before.drop_first(), found@);
                            assert(found@ == c(before[0]));
                            assert(self.queue@ == pull_step(m, before, c));
                            lemma_pull_unfold_right(m, q0, c, i as nat);
                            assert(produced@ =~= produced_before.push(pulled));
                        }
                    }
                },
                None => {
                    proof {
                        assert forall|c: spec_fn(T) -> Seq<T>| #[trigger] agrees_with(f, c)
                            implies produced@ == produced_by(m, q0, c, (i + 1) as nat)
                                && self.queue@ == remaining_after(m, q0, c, (i + 1) as nat) by {
                            lemma_pull_unfold_right(m, q0, c, i as nat);
                        }
                    }
                },
            }
            i = i + 1;
        }
        produced
    }
}

} // verus!
