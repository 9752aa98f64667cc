//! The heap-backed priority generator.

use core::cmp::Ordering;

use vstd::prelude::*;
use vstd::std_specs::cmp::OrdSpec;

verus! {

/// `a` is at most `b` by the item type's order: comparing `a` to `b` does
/// not say "greater".
pub open spec fn ord_le<T: Ord>(a: T, b: T) -> bool {
    a.cmp_spec(&b) != Ordering::Greater
}

/// The item type's comparison behaves as a total order: any two items
/// compare, and [`ord_le`] is transitive. Every lawful implementation of
/// [`Ord`] provides this; it cannot be checked here because the
/// implementation is the item type's own.
pub open spec fn ord_total<T: Ord>() -> bool {
    &&& forall|a: T, b: T| #[trigger] ord_le(a, b) || #[trigger] ord_le(b, a)
    &&& forall|a: T, mid: T, b: T|
        #![trigger ord_le(a, mid), ord_le(mid, b)]
        ord_le(a, mid) && ord_le(mid, b) ==> ord_le(a, b)
}

/// Transitive priority generator.
///
/// The generator produces all items which are transitively reachable from an
/// initial set of items through a given recursion function, including those
/// initial items. Items discovered by a call to the recursion function are
/// enqueued and only produced after the item passed in that call: if the
/// recursion function finds the "children" of a node, a node is produced
/// only after its "parent".
///
/// Of the currently enqueued items, the generator always produces a greatest
/// one as defined by the item type's implementation of [`Ord`].
///
/// The generator does not filter items reachable via multiple paths, so on
/// its own it is not suitable for navigating potentially cyclic structures.
/// For such structures, consider filtering in the recursion function.
#[derive(Clone)]
#[verifier::reject_recursive_types(T)]
pub struct TransPrioQueue<F, T> where F: Fn(&T) -> Vec<T>, T: Ord {
    get_next: F,
    data: Vec<T>,
}

impl<F, T> TransPrioQueue<F, T> where F: Fn(&T) -> Vec<T>, T: Ord {
    /// The items discovered but not yet produced, in internal storage order.
    pub closed spec fn pending(self) -> Seq<T> {
        self.data@
    }

    /// The recursion function the generator was created with.
    pub closed spec fn recursion(self) -> F {
        self.get_next
    }

    /// Create a new transitive priority generator.
    ///
    /// The generator will produce all items which are transitively reachable
    /// from the `initial` item through the given `recursion` function,
    /// including `initial` itself.
    pub fn new(initial: T, recursion: F) -> (pq: Self)
        ensures
            pq.pending() == seq![initial],
            pq.recursion() == recursion,
    {
        let mut data = Vec::new();
        data.push(initial);
        proof {
            assert(data@ =~= seq![initial]);
        }
        TransPrioQueue { get_next: recursion, data }
    }

    /// Create a new transitive priority generator with multiple initial
    /// items.
    ///
    /// The generator will produce all items which are transitively reachable
    /// from the `initial` set of items through the given `recursion`
    /// function, including the items of the initial set.
    pub fn new_multi(initial: Vec<T>, recursion: F) -> (pq: Self)
        ensures
            pq.pending() == initial@,
            pq.recursion() == recursion,
    {
        TransPrioQueue { get_next: recursion, data: initial }
    }

    /// Produce the next item.
    ///
    /// Returns `None` exactly when no item is pending. Otherwise removes a
    /// pending item that is greatest by the item type's order, hands it to
    /// the recursion function, enqueues everything found, and returns the
    /// removed item. A tie between equal greatest items is broken by the
    /// queue's own rules; no further tie-break is promised.
    ///
    /// The "greatest pending item" guarantee holds when the item type's
    /// comparison agrees with its specification and is a total order; both
    /// are the [`Ord`] implementation's duty.
    pub fn next(&mut self) -> (produced: Option<T>)
        requires
            forall|t: &T| #[trigger] call_requires(old(self).recursion(), (t,)),
        ensures
            final(self).recursion() == old(self).recursion(),
            old(self).pending().len() == 0 ==> produced is None
                && final(self).pending() == old(self).pending(),
            old(self).pending().len() > 0 ==> produced is Some,
            produced matches Some(top) ==> {
                &&& T::obeys_cmp_spec() && ord_total::<T>() ==> forall|j: int|
                    0 <= j < old(self).pending().len() ==> ord_le(
                        #[trigger] old(self).pending()[j],
                        top,
                    )
                &&& exists|i: int, found: Vec<T>|
                    {
                        &&& 0 <= i < old(self).pending().len()
                        &&& old(self).pending()[i] == top
                        &&& #[trigger] call_ensures(
                            old(self).recursion(),
                            (&old(self).pending()[i],),
                            found,
                        )
                        &&& final(self).pending() == old(self).pending().remove(i) + found@
                    }
            },
    {
        if self.data.len() == 0 {
            return None;
        }
        let ghost items = self.data@;
        let ghost f = self.get_next;
        let mut best: usize = 0;
        let mut idx: usize = 1;
        while idx < self.data.len()
            invariant
                self.data@ == items,
                self.get_next == f,
                0 <= best < idx <= items.len(),
                T::obeys_cmp_spec() && ord_total::<T>() ==> forall|j: int|
                    0 <= j < idx ==> ord_le(#[trigger] items[j], items[best as int]),
            decreases items.len() - idx,
        {
            let stood_out = match self.data[idx].cmp(&self.data[best]) {
                Ordering::Greater => true,
                _ => false,
            };
            proof {
                if T::obeys_cmp_spec() && ord_total::<T>() {
                    if stood_out {
                        assert(!ord_le(items[idx as int], items[best as int]));
                        assert(ord_le(items[best as int], items[idx as int]));
                        assert forall|j: int| 0 <= j < idx implies ord_le(
                            #[trigger] items[j],
                            items[idx as int],
                        ) by {
                            assert(ord_le(items[j], items[best as int]));
                        }
                        assert(ord_le(items[idx as int], items[idx as int]));
                    } else {
                        assert(ord_le(items[idx as int], items[best as int]));
                    }
                }
            }
            if stood_out {
                best = idx;
            }
            idx = idx + 1;
        }
        let top = self.data.remove(best);
        proof {
            assert(call_requires(old(self).recursion(), (&old(self).pending()[best as int],)));
        }
        let mut found = (self.get_next)(&top);
        let ghost witness = found;
        self.data.append(&mut found);
        proof {
            assert(call_ensures(
                old(self).recursion(),
                (&old(self).pending()[best as int],),
                witness,
            ));
            assert(self.data@ == old(self).pending().remove(best as int) + witness@);
        }
        Some(top)
    }
}

} // verus!
