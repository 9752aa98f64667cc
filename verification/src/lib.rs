//! Transitive iteration over lazily discovered structures.
//!
//! Given an initial set of items and a recursion function that maps an item
//! to the items directly reachable from it, [`TransIter`] produces every
//! transitively reachable item, once per discovery path, in a selectable
//! order ([`Mode`]). [`TransPrioQueue`] produces the pending item that is
//! greatest by the item type's order instead.

use vstd::prelude::*;

mod adapters;
mod frontier;
mod laws;
mod model;
mod prio_queue;
mod trans_iter;

pub use adapters::AutoIter;
pub use adapters::AutoTransIter;
pub use adapters::IntoTransIter;
pub use adapters::intrinsic_recursion;
pub use laws::lemma_breadth_first_blocks;
pub use laws::lemma_breadth_first_child_block;
pub use laws::lemma_complete_traversal_count;
pub use laws::lemma_partial_traversal_count;
pub use laws::lemma_depth_first_preorder;
pub use laws::lemma_depth_first_unordered_preorder;
pub use laws::lemma_preorder_concat;
pub use laws::lemma_preorder_reverse_len;
pub use laws::lemma_pull_step_preorder_len;
pub use laws::lemma_rank_decreasing_reversed;
pub use laws::lemma_unordered_as_reversed;
pub use laws::max_rank;
pub use laws::nat_max;
pub use laws::preorder;
pub use laws::rank_decreasing;
pub use laws::reversed_recursion;
pub use model::agrees_with;
pub use model::lemma_produced_caps;
pub use model::lemma_produced_prefix;
pub use model::lemma_pull_unfold_right;
pub use model::lemma_run_stable;
pub use model::mode_insert;
pub use model::produced_by;
pub use model::pull_step;
pub use model::remaining_after;
pub use prio_queue::ord_le;
pub use prio_queue::ord_total;
pub use prio_queue::TransPrioQueue;
pub use trans_iter::TransIter;

verus! {

/// Expansion discipline of a [`TransIter`]: where items discovered by one
/// pull are placed in the pending queue.
#[derive(Clone, Copy, Debug)]
pub enum Mode {
    /// Pending items form a queue: discoveries go to the back, in the order
    /// the recursion function emitted them.
    BreadthFirst,
    /// Discoveries go to the front, reversed on insertion so that siblings
    /// are later produced in emission order.
    DepthFirst,
    /// Discoveries go to the front one by one, so that siblings are later
    /// produced in reverse emission order.
    DepthFirstUnordered,
}

impl Default for Mode {
    /// The default discipline is breadth-first.
    fn default() -> (m: Self)
        ensures
            m == Mode::BreadthFirst,
    {
        Mode::BreadthFirst
    }
}

} // verus!
