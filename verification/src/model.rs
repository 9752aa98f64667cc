//! Mathematical model of a traversal.
//!
//! A pending queue is a `Seq<T>`; a deterministic recursion function is a
//! `spec_fn(T) -> Seq<T>`. One pull removes the front item and inserts what
//! the recursion function found for it as the active [`Mode`] directs;
//! [`produced_by`] and [`remaining_after`] run that process for a given
//! number of pulls.

use vstd::prelude::*;

use crate::Mode;

verus! {

/// The pending queue after one pull: `rest` is the queue without the pulled
/// item and `found` is what the recursion function emitted for it.
pub open spec fn mode_insert<T>(m: Mode, rest: Seq<T>, found: Seq<T>) -> Seq<T> {
    match m {
        Mode::BreadthFirst => rest + found,
        Mode::DepthFirst => found + rest,
        Mode::DepthFirstUnordered => found.reverse() + rest,
    }
}

/// The pending queue after pulling the front of `q` under the deterministic
/// recursion function `c`.
pub open spec fn pull_step<T>(m: Mode, q: Seq<T>, c: spec_fn(T) -> Seq<T>) -> Seq<T>
    recommends
        q.len() > 0,
{
    mode_insert(m, q.drop_first(), c(q[0]))
}

/// The items produced by `n` pulls from the queue `q` under the
/// deterministic recursion function `c`, in production order. Fewer than `n`
/// items come out when the queue runs dry first.
pub open spec fn produced_by<T>(m: Mode, q: Seq<T>, c: spec_fn(T) -> Seq<T>, n: nat) -> Seq<T>
    decreases n,
{
    if n == 0 || q.len() == 0 {
        Seq::empty()
    } else {
        seq![q[0]] + produced_by(m, pull_step(m, q, c), c, (n - 1) as nat)
    }
}

/// The pending queue left behind by `n` pulls from the queue `q` under the
/// deterministic recursion function `c`.
pub open spec fn remaining_after<T>(m: Mode, q: Seq<T>, c: spec_fn(T) -> Seq<T>, n: nat) -> Seq<T>
    decreases n,
{
    if n == 0 || q.len() == 0 {
        q
    } else {
        remaining_after(m, pull_step(m, q, c), c, (n - 1) as nat)
    }
}

/// The executable recursion function `f` computes the deterministic spec
/// `c`: whatever `f` returns for an item is exactly `c` of that item.
pub open spec fn agrees_with<F, T>(f: F, c: spec_fn(T) -> Seq<T>) -> bool where F: Fn(
    &T,
) -> Vec<T> {
    forall|t: &T, found: Vec<T>| #[trigger] call_ensures(f, (t,), found) ==> found@ == c(*t)
}

/// Unfolding a run of pulls from the back: the `n + 1`-st pull appends the
/// front of what was left after `n` pulls, if anything was left.
pub proof fn lemma_pull_unfold_right<T>(m: Mode, q: Seq<T>, c: spec_fn(T) -> Seq<T>, n: nat)
    ensures
        remaining_after(m, q, c, n).len() == 0 ==> {
            &&& produced_by(m, q, c, n + 1) == produced_by(m, q, c, n)
            &&& remaining_after(m, q, c, n + 1) == remaining_after(m, q, c, n)
        },
        remaining_after(m, q, c, n).len() > 0 ==> {
            &&& produced_by(m, q, c, n + 1) == produced_by(m, q, c, n).push(
                remaining_after(m, q, c, n)[0],
            )
            &&& remaining_after(m, q, c, n + 1) == pull_step(m, remaining_after(m, q, c, n), c)
        },
    decreases n,
{
    reveal_with_fuel(produced_by, 3);
    reveal_with_fuel(remaining_after, 3);
    if n == 0 {
        if q.len() > 0 {
            assert(produced_by(m, q, c, 1) =~= produced_by(m, q, c, 0).push(q[0]));
        }
    } else {
        if q.len() > 0 {
            let stepped = pull_step(m, q, c);
            lemma_pull_unfold_right(m, stepped, c, (n - 1) as nat);
            if remaining_after(m, stepped, c, (n - 1) as nat).len() > 0 {
                assert((seq![q[0]] + produced_by(m, stepped, c, (n - 1) as nat)).push(
                    remaining_after(m, stepped, c, (n - 1) as nat)[0],
                ) =~= seq![q[0]] + produced_by(m, stepped, c, (n - 1) as nat).push(
                    remaining_after(m, stepped, c, (n - 1) as nat)[0],
                ));
            }
        }
    }
}

/// No more items come out of a run than pulls were made, and fewer only
/// when nothing was left pending at the end.
pub proof fn lemma_produced_caps<T>(m: Mode, q: Seq<T>, c: spec_fn(T) -> Seq<T>, n: nat)
    ensures
        produced_by(m, q, c, n).len() <= n,
        produced_by(m, q, c, n).len() < n ==> remaining_after(m, q, c, n).len() == 0,
    decreases n,
{
    if n > 0 && q.len() > 0 {
        lemma_produced_caps(m, pull_step(m, q, c), c, (n - 1) as nat);
    }
}

/// Once nothing is pending, further pulls change nothing.
pub proof fn lemma_run_stable<T>(m: Mode, q: Seq<T>, c: spec_fn(T) -> Seq<T>, i: nat, n: nat)
    requires
        i <= n,
        remaining_after(m, q, c, i).len() == 0,
    ensures
        produced_by(m, q, c, n) == produced_by(m, q, c, i),
        remaining_after(m, q, c, n) == remaining_after(m, q, c, i),
    decreases n - i,
{
    if n > i {
        lemma_run_stable(m, q, c, i, (n - 1) as nat);
        lemma_pull_unfold_right(m, q, c, (n - 1) as nat);
    }
}

/// A shorter run produces a prefix of a longer run's production.
pub proof fn lemma_produced_prefix<T>(m: Mode, q: Seq<T>, c: spec_fn(T) -> Seq<T>, i: nat, n: nat)
    requires
        i <= n,
    ensures
        produced_by(m, q, c, i).len() <= produced_by(m, q, c, n).len(),
        produced_by(m, q, c, i) == produced_by(m, q, c, n).take(
            produced_by(m, q, c, i).len() as int,
        ),
    decreases n - i,
{
    let pi = produced_by(m, q, c, i);
    if n > i {
        lemma_produced_prefix(m, q, c, i, (n - 1) as nat);
        lemma_pull_unfold_right(m, q, c, (n - 1) as nat);
        let shorter = produced_by(m, q, c, (n - 1) as nat);
        if remaining_after(m, q, c, (n - 1) as nat).len() > 0 {
            assert(shorter.push(remaining_after(m, q, c, (n - 1) as nat)[0]).take(
                pi.len() as int,
            ) =~= shorter.take(pi.len() as int));
        }
    } else {
        assert(pi.take(pi.len() as int) =~= pi);
    }
}

} // verus!
