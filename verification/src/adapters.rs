//! Entry-point adapters: construct a generator directly from a value.

use std::collections::VecDeque;
use std::marker::PhantomData;

use vstd::prelude::*;

use crate::Mode;
use crate::frontier::insert_found;
use crate::frontier::queue_from_vec;
use crate::model::lemma_pull_unfold_right;
use crate::model::mode_insert;
use crate::model::produced_by;
use crate::model::pull_step;
use crate::model::remaining_after;
use crate::prio_queue::TransPrioQueue;
use crate::trans_iter::TransIter;

verus! {

/// Create a [`TransIter`] directly from some value.
///
/// The trait derives the initial pending items from a value:
/// [`IntoTransIter::trans_iter_with`] starts a sequence generator from
/// them, [`IntoTransIter::trans_prio_queue_with`] a priority generator. A
/// blanket implementation lets every item type seed a traversal with
/// itself.
pub trait IntoTransIter<T>: Sized {
    /// The initial pending items derived from this value, in order.
    spec fn initial_items(self) -> Seq<T>;

    /// Turn this value into the initial pending items.
    fn into_initial_items(self) -> (initial: Vec<T>)
        ensures
            initial@ == self.initial_items(),
    ;

    /// Create a [`TransIter`] from this value.
    ///
    /// The generator starts from the initial items derived from this value
    /// and expands them through the given recursion function, breadth first
    /// until told otherwise.
    fn trans_iter_with<F: Fn(&T) -> Vec<T>>(self, recursion: F) -> (it: TransIter<F, T>)
        ensures
            it.frontier() == self.initial_items(),
            it.expansion_mode() == Mode::BreadthFirst,
            it.recursion() == recursion,
    {
        TransIter::new_multi(self.into_initial_items(), recursion)
    }

    /// Create a [`TransPrioQueue`] from this value.
    ///
    /// The generator starts from the initial items derived from this value
    /// and expands them through the given recursion function, greatest item
    /// first.
    fn trans_prio_queue_with<F: Fn(&T) -> Vec<T>>(self, recursion: F) -> (pq: TransPrioQueue<
        F,
        T,
    >) where T: Ord
        ensures
            pq.pending() == self.initial_items(),
            pq.recursion() == recursion,
    {
        self.trans_iter_with(recursion).into_trans_prio_queue()
    }
}

impl<T> IntoTransIter<T> for T {
    /// A value seeds the traversal with itself alone.
    open spec fn initial_items(self) -> Seq<T> {
        seq![self]
    }

    fn into_initial_items(self) -> (initial: Vec<T>) {
        let ghost seed = self;
        let mut initial = Vec::new();
        initial.push(self);
        proof {
            assert(initial@ =~= seq![seed]);
        }
        initial
    }
}

/// Create an [`AutoIter`] directly from some value, with type-specific
/// recursion.
///
/// Types with an inherent relation to other items of the same type, such as
/// recursive or tree-like structures, can supply their recursion once, at
/// the type level; [`AutoTransIter::trans_iter`] then needs no recursion
/// function at the call site. Which recursion runs is decided by the
/// implementing type alone, at compile time. To avoid deep copying,
/// consider implementing this trait for references to your type rather than
/// for the type itself.
pub trait AutoTransIter<T>: IntoTransIter<T> {
    /// What the type-specific recursion finds for `item`, in order.
    spec fn recurse_spec(item: T) -> Seq<T>;

    /// Retrieve the "next" items reachable from a given item.
    fn recurse(item: &T) -> (found: Vec<T>)
        ensures
            found@ == Self::recurse_spec(*item),
    ;

    /// Create an [`AutoIter`] from this value.
    ///
    /// The generator starts from the initial items derived from this value
    /// and expands them through [`AutoTransIter::recurse`], breadth first
    /// until told otherwise.
    fn trans_iter(self) -> (it: AutoIter<Self, T>)
        ensures
            it.frontier() == self.initial_items(),
            it.expansion_mode() == Mode::BreadthFirst,
    {
        AutoIter {
            queue: queue_from_vec(self.into_initial_items()),
            mode: Mode::default(),
            recursion: PhantomData,
        }
    }
}

/// The intrinsic recursion of the items of an [`AutoTransIter`]
/// implementation, as one deterministic recursion spec.
pub open spec fn intrinsic_recursion<S: AutoTransIter<T>, T>() -> spec_fn(T) -> Seq<T> {
    |t: T| S::recurse_spec(t)
}

/// Transitive sequence generator over a type-specific recursion.
///
/// The counterpart of [`TransIter`] for traversals started with
/// [`AutoTransIter::trans_iter`]: instead of a recursion function supplied
/// at the call site, each pull expands the produced item through
/// [`AutoTransIter::recurse`]. The expansion disciplines and their
/// selectors are the same as on [`TransIter`].
pub struct AutoIter<S, T> {
    queue: VecDeque<T>,
    mode: Mode,
    recursion: PhantomData<S>,
}

impl<S, T> AutoIter<S, T> {
    /// The items discovered but not yet produced, in queue order.
    pub closed spec fn frontier(self) -> Seq<T> {
        self.queue@
    }

    /// The active expansion discipline.
    pub closed spec fn expansion_mode(self) -> Mode {
        self.mode
    }

    /// Make this generator produce breadth first.
    ///
    /// Siblings are produced grouped together, in the order
    /// [`AutoTransIter::recurse`] emitted them. This is the default
    /// discipline.
    pub fn breadth_first(self) -> (it: Self)
        ensures
            it.frontier() == self.frontier(),
            it.expansion_mode() == Mode::BreadthFirst,
    {
        AutoIter { mode: Mode::BreadthFirst, ..self }
    }

    /// Make this generator produce depth first.
    ///
    /// After producing an item, the generator produces all the items
    /// reachable from it before the item's next sibling, siblings in
    /// emission order.
    pub fn depth_first(self) -> (it: Self)
        ensures
            it.frontier() == self.frontier(),
            it.expansion_mode() == Mode::DepthFirst,
    {
        AutoIter { mode: Mode::DepthFirst, ..self }
    }

    /// Make this generator produce depth first, without preserving sibling
    /// order.
    ///
    /// After producing an item, the generator produces all the items
    /// reachable from it before the item's next sibling, siblings in
    /// reverse emission order.
    pub fn depth_first_unordered(self) -> (it: Self)
        ensures
            it.frontier() == self.frontier(),
            it.expansion_mode() == Mode::DepthFirstUnordered,
    {
        AutoIter { mode: Mode::DepthFirstUnordered, ..self }
    }
}

impl<S, T> AutoIter<S, T> where S: AutoTransIter<T> {
    /// Produce the next item.
    ///
    /// Returns `None` exactly when no item is pending. Otherwise removes
    /// the front pending item, expands it through
    /// [`AutoTransIter::recurse`], inserts everything found as the active
    /// discipline directs, and returns the removed item.
    pub fn next(&mut self) -> (produced: Option<T>)
        ensures
            final(self).expansion_mode() == old(self).expansion_mode(),
            old(self).frontier().len() == 0 ==> produced is None
                && final(self).frontier() == old(self).frontier(),
            old(self).frontier().len() > 0 ==> produced == Some(old(self).frontier()[0])
                && final(self).frontier() == mode_insert(
                    old(self).expansion_mode(),
                    old(self).frontier().drop_first(),
                    S::recurse_spec(old(self).frontier()[0]),
                ),
    {
        let produced = self.queue.pop_front();
        match &produced {
            None => {},
            Some(item) => {
                let found = S::recurse(item);
                insert_found(&mut self.queue, self.mode, found);
            },
        }
        produced
    }

    /// Produce up to `n` items, in production order.
    ///
    /// Equivalent to calling [`AutoIter::next`] `n` times and collecting
    /// what comes out; fewer than `n` items come out exactly when the
    /// generator runs dry first. The result is the one traversal
    /// [`produced_by`] describes for [`AutoTransIter::recurse_spec`]: it
    /// depends only on the initial pending items and the discipline, so any
    /// two generators set up alike produce alike.
    pub fn pull_many(&mut self, n: usize) -> (produced: Vec<T>)
        ensures
            final(self).expansion_mode() == old(self).expansion_mode(),
            produced@ == produced_by(
                old(self).expansion_mode(),
                old(self).frontier(),
                intrinsic_recursion::<S, T>(),
                n as nat,
            ),
            final(self).frontier() == remaining_after(
                old(self).expansion_mode(),
                old(self).frontier(),
                intrinsic_recursion::<S, T>(),
                n as nat,
            ),
    {
        let ghost q0 = self.queue@;
        let ghost m = self.mode;
        let mut produced: Vec<T> = Vec::new();
        let mut i: usize = 0;
        while i < n
            invariant
                i <= n,
                self.mode == m,
                produced@ == produced_by(m, q0, intrinsic_recursion::<S, T>(), i as nat),
                self.queue@ == remaining_after(m, q0, intrinsic_recursion::<S, T>(), i as nat),
            decreases n - i,
        {
            let ghost before = self.queue@;
            let item = self.next();
            proof {
                lemma_pull_unfold_right(m, q0, intrinsic_recursion::<S, T>(), i as nat);
                if before.len() > 0 {
                    assert(intrinsic_recursion::<S, T>()(before[0]) == S::recurse_spec(before[0]));
                    assert(self.queue@ == pull_step(m, before, intrinsic_recursion::<S, T>()));
                }
            }
            match item {
                Some(pulled) => {
                    produced.push(pulled);
                    proof {
                        assert(produced@ =~= produced_by(
                            m,
                            q0,
                            intrinsic_recursion::<S, T>(),
                            (i + 1) as nat,
                        ));
                    }
                },
                None => {},
            }
            i = i + 1;
        }
        produced
    }
}

} // verus!
