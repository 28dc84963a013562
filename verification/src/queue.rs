//! The fixed-capacity command queue of the load planner, backed by a
//! bounded vector of the `heapless` crate.
//!
//! The queue type is opaque to the verifier; `queue_contents` names what it
//! holds, and each operation the planner uses carries a contract taken from
//! the crate's source. Overflow is a reported error, never a silent
//! truncation.

use vstd::prelude::*;

use crate::plan::LoadCommand;

verus! {

/// Capacity of the command queue; exceeding it aborts the load attempt.
pub const MAX_LOAD_COMMANDS: usize = 25;

#[verifier::external_type_specification]
#[verifier::external_body]
#[verifier::reject_recursive_types(T)]
pub struct ExHeaplessVec<T, const N: usize>(heapless::Vec<T, N>);

/// The commands stored in the queue, oldest first.
pub uninterp spec fn queue_contents(q: heapless::Vec<LoadCommand, 25>) -> Seq<LoadCommand>;

/// Relies on heapless::Vec::new: a fresh vector is empty.
#[verifier::external_body]
pub fn queue_new() -> (q: heapless::Vec<LoadCommand, 25>)
    ensures
        queue_contents(q) == Seq::<LoadCommand>::empty(),
{
    heapless::Vec::new()
}

/// Relies on heapless::Vec::push: appends below capacity, else hands the
/// item back unchanged.
#[verifier::external_body]
pub fn queue_push(q: &mut heapless::Vec<LoadCommand, 25>, cmd: LoadCommand) -> (r: Result<
    (),
    LoadCommand,
>)
    ensures
        queue_contents(*old(q)).len() < MAX_LOAD_COMMANDS ==> {
            &&& r == Ok::<(), LoadCommand>(())
            &&& queue_contents(*final(q)) == queue_contents(*old(q)).push(cmd)
        },
        queue_contents(*old(q)).len() >= MAX_LOAD_COMMANDS ==> {
            &&& r == Err::<(), LoadCommand>(cmd)
            &&& *final(q) == *old(q)
        },
{
    q.push(cmd)
}

/// Relies on heapless::Vec::pop: removes and returns the newest item, or
/// nothing when empty.
#[verifier::external_body]
pub fn queue_pop(q: &mut heapless::Vec<LoadCommand, 25>) -> (r: Option<LoadCommand>)
    ensures
        queue_contents(*old(q)).len() == 0 ==> {
            &&& r is None
            &&& *final(q) == *old(q)
        },
        queue_contents(*old(q)).len() > 0 ==> {
            &&& r == Some(queue_contents(*old(q)).last())
            &&& queue_contents(*final(q)) == queue_contents(*old(q)).drop_last()
        },
{
    q.pop()
}

/// Relies on the slice view of heapless::Vec (its Deref impl) for `last`:
/// the newest item, or nothing when empty.
#[verifier::external_body]
pub fn queue_last(q: &heapless::Vec<LoadCommand, 25>) -> (r: Option<LoadCommand>)
    ensures
        queue_contents(*q).len() == 0 ==> r is None,
        queue_contents(*q).len() > 0 ==> r == Some(queue_contents(*q).last()),
{
    q.last().copied()
}

/// Relies on the slice view of heapless::Vec (its Deref impl) for `len`.
#[verifier::external_body]
pub fn queue_len(q: &heapless::Vec<LoadCommand, 25>) -> (n: usize)
    ensures
        n == queue_contents(*q).len(),
{
    q.len()
}

/// Relies on the slice view of heapless::Vec (its Deref impl) for `get`:
/// the item at `i`, or nothing past the end.
#[verifier::external_body]
pub fn queue_get(q: &heapless::Vec<LoadCommand, 25>, i: usize) -> (r: Option<LoadCommand>)
    ensures
        i < queue_contents(*q).len() ==> r == Some(queue_contents(*q)[i as int]),
        i >= queue_contents(*q).len() ==> r is None,
{
    q.get(i).copied()
}

} // verus!
