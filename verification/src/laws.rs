//! What the traversal orders guarantee.
//!
//! Over the model of [`crate::model`], this module relates the three
//! expansion disciplines to the recursive pre-order of the discovered
//! structure. The structure itself is given by a deterministic recursion
//! spec `c`; it is finite and acyclic when some rank function shrinks along
//! `c` ([`rank_decreasing`]), which stands in for "finite structure" in
//! every statement that needs one.

use vstd::prelude::*;

use crate::Mode;
use crate::model::lemma_produced_caps;
use crate::model::lemma_produced_prefix;
use crate::model::lemma_pull_unfold_right;
use crate::model::lemma_run_stable;
use crate::model::produced_by;
use crate::model::pull_step;
use crate::model::remaining_after;

verus! {

/// The larger of two naturals.
pub open spec fn nat_max(a: nat, b: nat) -> nat {
    if a >= b {
        a
    } else {
        b
    }
}

/// Every item the recursion spec `c` finds ranks strictly below the item
/// it was found for. Such a rank exists exactly when every discovery path
/// is finite, i.e. when the structure explored through `c` is acyclic and
/// of finite depth below every item.
pub open spec fn rank_decreasing<T>(c: spec_fn(T) -> Seq<T>, r: spec_fn(T) -> nat) -> bool {
    forall|t: T, i: int| 0 <= i < c(t).len() ==> r(#[trigger] c(t)[i]) < r(t)
}

/// The greatest rank among the items of `q`, zero for an empty `q`.
pub open spec fn max_rank<T>(r: spec_fn(T) -> nat, q: Seq<T>) -> nat
    decreases q.len(),
{
    if q.len() == 0 {
        0
    } else {
        nat_max(r(q[0]), max_rank(r, q.drop_first()))
    }
}

/// The pre-order traversal of the forest whose roots are the items of `q`
/// and whose edges are given by `c`: the first root, then the full
/// traversal below each of its children in emission order, then the
/// remaining roots likewise.
pub open spec fn preorder<T>(c: spec_fn(T) -> Seq<T>, r: spec_fn(T) -> nat, q: Seq<T>) -> Seq<T>
    decreases max_rank(r, q), q.len(),
        when rank_decreasing(c, r)
        via preorder_decreases::<T>
{
    if q.len() == 0 {
        Seq::empty()
    } else {
        seq![q[0]] + preorder(c, r, c(q[0])) + preorder(c, r, q.drop_first())
    }
}

/// The rank of any item of `q` is at most [`max_rank`] of `q`.
proof fn lemma_rank_le_max<T>(r: spec_fn(T) -> nat, q: Seq<T>, i: int)
    requires
        0 <= i < q.len(),
    ensures
        r(q[i]) <= max_rank(r, q),
    decreases q.len(),
{
    if i > 0 {
        lemma_rank_le_max(r, q.drop_first(), i - 1);
        assert(q.drop_first()[i - 1] == q[i]);
    }
}

/// A bound above every item's rank is above [`max_rank`] of a non-empty
/// sequence.
proof fn lemma_max_rank_bounded<T>(r: spec_fn(T) -> nat, q: Seq<T>, bound: nat)
    requires
        q.len() > 0,
        forall|i: int| 0 <= i < q.len() ==> r(#[trigger] q[i]) < bound,
    ensures
        max_rank(r, q) < bound,
    decreases q.len(),
{
    reveal_with_fuel(max_rank, 2);
    assert(r(q[0]) < bound);
    if q.len() > 1 {
        assert forall|i: int| 0 <= i < q.drop_first().len() implies r(
            #[trigger] q.drop_first()[i],
        ) < bound by {
            assert(q.drop_first()[i] == q[i + 1]);
        }
        lemma_max_rank_bounded(r, q.drop_first(), bound);
    }
}

/// Pre-order traversal of a forest splits at any border between its
/// roots: the roots of `a` and everything below them come first, then the
/// roots of `b` and everything below them.
pub proof fn lemma_preorder_concat<T>(
    c: spec_fn(T) -> Seq<T>,
    r: spec_fn(T) -> nat,
    a: Seq<T>,
    b: Seq<T>,
)
    requires
        rank_decreasing(c, r),
    ensures
        preorder(c, r, a + b) == preorder(c, r, a) + preorder(c, r, b),
    decreases a.len(),
{
    if a.len() == 0 {
        assert(a + b =~= b);
        assert(preorder(c, r, a) + preorder(c, r, b) =~= preorder(c, r, b));
    } else {
        let ab = a + b;
        assert(ab[0] == a[0]);
        assert(ab.drop_first() =~= a.drop_first() + b);
        lemma_preorder_concat(c, r, a.drop_first(), b);
        assert(seq![a[0]] + preorder(c, r, c(a[0])) + (preorder(c, r, a.drop_first()) + preorder(
            c,
            r,
            b,
        )) =~= (seq![a[0]] + preorder(c, r, c(a[0])) + preorder(c, r, a.drop_first())) + preorder(
            c,
            r,
            b,
        ));
    }
}

/// Reversing the roots of a forest does not change how many items its
/// pre-order traversal holds.
pub proof fn lemma_preorder_reverse_len<T>(c: spec_fn(T) -> Seq<T>, r: spec_fn(T) -> nat, s: Seq<T>)
    requires
        rank_decreasing(c, r),
    ensures
        preorder(c, r, s.reverse()).len() == preorder(c, r, s).len(),
    decreases s.len(),
{
    if s.len() > 0 {
        assert(s.reverse() =~= s.drop_first().reverse() + seq![s[0]]);
        lemma_preorder_concat(c, r, s.drop_first().reverse(), seq![s[0]]);
        lemma_preorder_reverse_len(c, r, s.drop_first());
        assert(seq![s[0]].drop_first() =~= Seq::<T>::empty());
        assert(preorder(c, r, seq![s[0]]) == seq![s[0]] + preorder(c, r, c(s[0])) + preorder(
            c,
            r,
            Seq::<T>::empty(),
        ));
    }
}

/// One pull takes exactly one item off the traversal that is still owed:
/// whatever the discipline, the pre-order of the queue it leaves behind is
/// one item shorter.
pub proof fn lemma_pull_step_preorder_len<T>(
    m: Mode,
    q: Seq<T>,
    c: spec_fn(T) -> Seq<T>,
    r: spec_fn(T) -> nat,
)
    requires
        rank_decreasing(c, r),
        q.len() > 0,
    ensures
        preorder(c, r, pull_step(m, q, c)).len() == preorder(c, r, q).len() - 1,
{
    let kids = c(q[0]);
    let rest = q.drop_first();
    match m {
        Mode::BreadthFirst => {
            lemma_preorder_concat(c, r, rest, kids);
        },
        Mode::DepthFirst => {
            lemma_preorder_concat(c, r, kids, rest);
        },
        Mode::DepthFirstUnordered => {
            lemma_preorder_concat(c, r, kids.reverse(), rest);
            lemma_preorder_reverse_len(c, r, kids);
        },
    }
}

/// A finite structure is produced completely, and exactly once per
/// discovery path: under every discipline, pulling at least as often as
/// the structure has items yields exactly as many items as its pre-order
/// traversal holds and leaves nothing pending.
pub proof fn lemma_complete_traversal_count<T>(
    m: Mode,
    q: Seq<T>,
    c: spec_fn(T) -> Seq<T>,
    r: spec_fn(T) -> nat,
    n: nat,
)
    requires
        rank_decreasing(c, r),
        n >= preorder(c, r, q).len(),
    ensures
        produced_by(m, q, c, n).len() == preorder(c, r, q).len(),
        remaining_after(m, q, c, n).len() == 0,
    decreases n,
{
    if q.len() > 0 {
        lemma_pull_step_preorder_len(m, q, c, r);
        lemma_complete_traversal_count(m, pull_step(m, q, c), c, r, (n - 1) as nat);
    }
}

/// A finite structure is not exhausted early: as long as fewer pulls were
/// made than the structure has items, every pull has produced one item.
pub proof fn lemma_partial_traversal_count<T>(
    m: Mode,
    q: Seq<T>,
    c: spec_fn(T) -> Seq<T>,
    r: spec_fn(T) -> nat,
    n: nat,
)
    requires
        rank_decreasing(c, r),
        n <= preorder(c, r, q).len(),
    ensures
        produced_by(m, q, c, n).len() == n,
    decreases n,
{
    if n > 0 {
        lemma_pull_step_preorder_len(m, q, c, r);
        lemma_partial_traversal_count(m, pull_step(m, q, c), c, r, (n - 1) as nat);
    }
}

/// Depth-first production is pre-order traversal: pulling a finite
/// structure dry depth first yields each item, then everything below its
/// first child, then its further children likewise, before its siblings.
pub proof fn lemma_depth_first_preorder<T>(
    q: Seq<T>,
    c: spec_fn(T) -> Seq<T>,
    r: spec_fn(T) -> nat,
    n: nat,
)
    requires
        rank_decreasing(c, r),
        n >= preorder(c, r, q).len(),
    ensures
        produced_by(Mode::DepthFirst, q, c, n) == preorder(c, r, q),
    decreases n,
{
    if q.len() == 0 {
        assert(produced_by(Mode::DepthFirst, q, c, n) =~= preorder(c, r, q));
    } else {
        let kids = c(q[0]);
        let rest = q.drop_first();
        lemma_preorder_concat(c, r, kids, rest);
        lemma_depth_first_preorder(kids + rest, c, r, (n - 1) as nat);
        assert(seq![q[0]] + (preorder(c, r, kids) + preorder(c, r, rest)) =~= seq![q[0]]
            + preorder(c, r, kids) + preorder(c, r, rest));
    }
}

/// The recursion spec that finds the same items as `c`, each item's
/// findings in reverse order.
pub open spec fn reversed_recursion<T>(c: spec_fn(T) -> Seq<T>) -> spec_fn(T) -> Seq<T> {
    |t: T| c(t).reverse()
}

/// A rank that shrinks along `c` shrinks along [`reversed_recursion`] of
/// `c` too: reversal finds the same items.
pub proof fn lemma_rank_decreasing_reversed<T>(c: spec_fn(T) -> Seq<T>, r: spec_fn(T) -> nat)
    requires
        rank_decreasing(c, r),
    ensures
        rank_decreasing(reversed_recursion(c), r),
{
    let crev = reversed_recursion(c);
    assert forall|t: T, i: int| 0 <= i < crev(t).len() implies r(#[trigger] crev(t)[i]) < r(
        t,
    ) by {
        assert(crev(t)[i] == c(t)[c(t).len() - 1 - i]);
    }
}

/// Unordered depth-first production under `c` is depth-first production
/// under `c` with every item's findings reversed.
pub proof fn lemma_unordered_as_reversed<T>(q: Seq<T>, c: spec_fn(T) -> Seq<T>, n: nat)
    ensures
        produced_by(Mode::DepthFirstUnordered, q, c, n) == produced_by(
            Mode::DepthFirst,
            q,
            reversed_recursion(c),
            n,
        ),
        remaining_after(Mode::DepthFirstUnordered, q, c, n) == remaining_after(
            Mode::DepthFirst,
            q,
            reversed_recursion(c),
            n,
        ),
    decreases n,
{
    if n > 0 && q.len() > 0 {
        let crev = reversed_recursion(c);
        assert(crev(q[0]) == c(q[0]).reverse());
        assert(pull_step(Mode::DepthFirstUnordered, q, c) == pull_step(Mode::DepthFirst, q, crev));
        lemma_unordered_as_reversed(pull_step(Mode::DepthFirstUnordered, q, c), c, (n - 1) as nat);
    }
}

/// Unordered depth-first production is pre-order traversal with each
/// item's children visited in reverse emission order: pulling a finite
/// structure dry yields the pre-order of the structure under
/// [`reversed_recursion`].
pub proof fn lemma_depth_first_unordered_preorder<T>(
    q: Seq<T>,
    c: spec_fn(T) -> Seq<T>,
    r: spec_fn(T) -> nat,
    n: nat,
)
    requires
        rank_decreasing(c, r),
        n >= preorder(reversed_recursion(c), r, q).len(),
    ensures
        produced_by(Mode::DepthFirstUnordered, q, c, n) == preorder(reversed_recursion(c), r, q),
{
    lemma_rank_decreasing_reversed(c, r);
    lemma_unordered_as_reversed(q, c, n);
    lemma_depth_first_preorder(q, reversed_recursion(c), r, n);
}

/// Breadth-first production goes in blocks of siblings: what has been
/// produced, followed by what is pending, is always the initial items
/// followed by one contiguous block per produced item, holding exactly
/// what the recursion spec found for that item, in emission order, and the
/// blocks in the order their items were produced.
pub proof fn lemma_breadth_first_blocks<T>(q: Seq<T>, c: spec_fn(T) -> Seq<T>, n: nat)
    ensures
        produced_by(Mode::BreadthFirst, q, c, n) + remaining_after(Mode::BreadthFirst, q, c, n)
            == q + produced_by(Mode::BreadthFirst, q, c, n).map_values(c).flatten(),
    decreases n,
{
    let m = Mode::BreadthFirst;
    if n == 0 {
        assert(produced_by(m, q, c, 0).map_values(c) =~= Seq::<Seq<T>>::empty());
        assert(produced_by(m, q, c, 0) + remaining_after(m, q, c, 0) =~= q + Seq::<
            Seq<T>,
        >::empty().flatten());
    } else {
        lemma_breadth_first_blocks(q, c, (n - 1) as nat);
        lemma_pull_unfold_right(m, q, c, (n - 1) as nat);
        let p = produced_by(m, q, c, (n - 1) as nat);
        let rem = remaining_after(m, q, c, (n - 1) as nat);
        if rem.len() > 0 {
            let front = rem[0];
            let kids = c(front);
            assert(p.push(front).map_values(c) =~= p.map_values(c).push(kids));
            p.map_values(c).lemma_flatten_push(kids);
            assert(p.push(front) + (rem.drop_first() + kids) =~= (p + rem) + kids);
            assert(q + (p.map_values(c).flatten() + kids) =~= (q + p.map_values(c).flatten())
                + kids);
        }
    }
}

/// Where one produced item's block of children sits in a breadth-first
/// run: writing the run as what was produced followed by what is pending,
/// the block of the `i`-th produced item is exactly what the recursion
/// spec found for it, contiguous, and strictly after the item itself —
/// every parent is produced before any of its children.
pub proof fn lemma_breadth_first_child_block<T>(q: Seq<T>, c: spec_fn(T) -> Seq<T>, n: nat, i: int)
    requires
        0 <= i < produced_by(Mode::BreadthFirst, q, c, n).len(),
    ensures
        ({
            let p = produced_by(Mode::BreadthFirst, q, c, n);
            let full = p + remaining_after(Mode::BreadthFirst, q, c, n);
            let start = q.len() + p.take(i).map_values(c).flatten().len();
            &&& i < start
            &&& start + c(p[i]).len() <= full.len()
            &&& full.subrange(start as int, start as int + c(p[i]).len() as int) == c(p[i])
        }),
{
    let m = Mode::BreadthFirst;
    let p = produced_by(m, q, c, n);
    let rem = remaining_after(m, q, c, n);
    let full = p + rem;
    let pi = produced_by(m, q, c, i as nat);
    let rem_i = remaining_after(m, q, c, i as nat);
    lemma_produced_caps(m, q, c, i as nat);
    lemma_produced_caps(m, q, c, n);
    lemma_produced_prefix(m, q, c, i as nat, n);
    if pi.len() < i || rem_i.len() == 0 {
        lemma_run_stable(m, q, c, i as nat, n);
        assert(false);
    }
    assert(pi.len() == i);
    assert(p.take(i) == pi);
    lemma_pull_unfold_right(m, q, c, i as nat);
    lemma_produced_prefix(m, q, c, (i + 1) as nat, n);
    assert(p.take(i + 1) == pi.push(rem_i[0]));
    assert(p.take(i + 1)[i] == p[i]);
    assert(pi.push(rem_i[0])[i] == rem_i[0]);
    assert(p[i] == rem_i[0]);
    let block = c(p[i]);
    // The run up to the i-th pull places the block right after the earlier
    // blocks, and the item count so far bounds that position from below.
    lemma_breadth_first_blocks(q, c, i as nat);
    let early = pi.map_values(c).flatten();
    assert(pi + rem_i == q + early);
    assert((pi + rem_i).len() == pi.len() + rem_i.len());
    assert((q + early).len() == q.len() + early.len());
    assert(q.len() + early.len() == i + rem_i.len());
    let start = q.len() + p.take(i).map_values(c).flatten().len();
    assert(start == q.len() + early.len());
    assert(i < start);
    // The full run splits around the i-th item's block.
    lemma_breadth_first_blocks(q, c, n);
    assert(p =~= p.take(i) + seq![p[i]] + p.skip(i + 1));
    let tail = p.skip(i + 1).map_values(c);
    assert(p.map_values(c) =~= pi.map_values(c) + seq![block] + tail);
    vstd::seq_lib::lemma_flatten_concat(pi.map_values(c) + seq![block], tail);
    vstd::seq_lib::lemma_flatten_concat(pi.map_values(c), seq![block]);
    seq![block].lemma_flatten_one_element();
    assert(p.map_values(c).flatten() == early + block + tail.flatten());
    assert(full == q + (early + block + tail.flatten()));
    assert(start + block.len() <= full.len());
    assert(full.subrange(start as int, start as int + block.len() as int) =~= block);
}

#[via_fn]
proof fn preorder_decreases<T>(c: spec_fn(T) -> Seq<T>, r: spec_fn(T) -> nat, q: Seq<T>) {
    if q.len() > 0 {
        let kids = c(q[0]);
        lemma_rank_le_max(r, q, 0);
        if kids.len() > 0 {
            assert forall|i: int| 0 <= i < kids.len() implies r(#[trigger] kids[i]) < r(
                q[0],
            ) by {}
            lemma_max_rank_bounded(r, kids, r(q[0]));
        }
    }
}

} // verus!
