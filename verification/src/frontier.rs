//! Shared plumbing for the queue-backed generators: building a pending
//! queue from a vector of initial items, and inserting what one call to a
//! recursion function found, as the active [`Mode`] directs.

use std::collections::VecDeque;

use vstd::prelude::*;

use crate::Mode;
use crate::model::mode_insert;

verus! {

/// Build a pending queue holding the items of `initial`, in order.
pub(crate) fn queue_from_vec<T>(initial: Vec<T>) -> (queue: VecDeque<T>)
    ensures
        queue@ == initial@,
{
    let ghost all = initial@;
    let mut rest = initial;
    let mut queue = VecDeque::new();
    proof {
        assert(rest@ =~= all.take(rest@.len() as int));
        assert(queue@ =~= all.skip(rest@.len() as int));
    }
    while rest.len() > 0
        invariant
            rest@.len() <= all.len(),
            rest@ == all.take(rest@.len() as int),
            queue@ == all.skip(rest@.len() as int),
        decreases rest.len(),
    {
        let ghost k = rest@.len() as int;
        let item = rest.pop().unwrap();
        queue.push_front(item);
        proof {
            assert(item == all[k - 1]);
            assert(rest@ =~= all.take(k - 1));
            assert(queue@ =~= all.skip(k - 1));
        }
    }
    proof {
        assert(queue@ =~= all);
    }
    queue
}

/// Insert the items of `found` into the pending queue as `mode` directs:
/// appended in order for [`Mode::BreadthFirst`], prepended reversed for
/// [`Mode::DepthFirst`] (so that the first item found ends up at the very
/// front), prepended one by one for [`Mode::DepthFirstUnordered`].
pub(crate) fn insert_found<T>(queue: &mut VecDeque<T>, mode: Mode, found: Vec<T>)
    ensures
        final(queue)@ == mode_insert(mode, old(queue)@, found@),
{
    let ghost rest = queue@;
    let ghost emitted = found@;
    let mut found = found;
    match mode {
        Mode::BreadthFirst => {
            proof {
                assert(found@ =~= emitted.skip(emitted.len() - found@.len()));
                assert(queue@ =~= rest + emitted.take(emitted.len() - found@.len()));
            }
            while found.len() > 0
                invariant
                    found@.len() <= emitted.len(),
                    found@ == emitted.skip(emitted.len() - found@.len()),
                    queue@ == rest + emitted.take(emitted.len() - found@.len()),
                decreases found.len(),
            {
                let ghost k = emitted.len() - found@.len();
                let next_item = found.remove(0);
                queue.push_back(next_item);
                proof {
                    assert(next_item == emitted[k]);
                    assert(found@ =~= emitted.skip(k + 1));
                    assert(queue@ =~= rest + emitted.take(k + 1));
                }
            }
            proof {
                assert(queue@ =~= rest + emitted);
            }
        },
        Mode::DepthFirst => {
            proof {
                assert(found@ =~= emitted.take(found@.len() as int));
                assert(queue@ =~= emitted.skip(found@.len() as int) + rest);
            }
            while found.len() > 0
                invariant
                    found@.len() <= emitted.len(),
                    found@ == emitted.take(found@.len() as int),
                    queue@ == emitted.skip(found@.len() as int) + rest,
                decreases found.len(),
            {
                let ghost k = found@.len() as int;
                let next_item = found.pop().unwrap();
                queue.push_front(next_item);
                proof {
                    assert(next_item == emitted[k - 1]);
                    assert(found@ =~= emitted.take(k - 1));
                    assert(queue@ =~= emitted.skip(k - 1) + rest);
                }
            }
            proof {
                assert(queue@ =~= emitted + rest);
            }
        },
        Mode::DepthFirstUnordered => {
            proof {
                assert(found@ =~= emitted.skip(emitted.len() - found@.len()));
                assert(queue@ =~= emitted.take(emitted.len() - found@.len()).reverse() + rest);
            }
            while found.len() > 0
                invariant
                    found@.len() <= emitted.len(),
                    found@ == emitted.skip(emitted.len() - found@.len()),
                    queue@ == emitted.take(emitted.len() - found@.len()).reverse() + rest,
                decreases found.len(),
            {
                let ghost k = emitted.len() - found@.len();
                let next_item = found.remove(0);
                queue.push_front(next_item);
                proof {
                    assert(next_item == emitted[k]);
                    assert(found@ =~= emitted.skip(k + 1));
                    assert(queue@ =~= emitted.take(k + 1).reverse() + rest);
                }
            }
            proof {
                assert(emitted.take(emitted.len() as int) =~= emitted);
                assert(queue@ =~= emitted.reverse() + rest);
            }
        },
    }
}

} // verus!
