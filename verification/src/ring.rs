//! Bounded queues: `heapless::Deque` and what the library relies on of it.
//!
//! Two queues occur: the decoded text of the decoder and the key transitions
//! that the keyer engine records. Each has a name for what it holds, oldest
//! item first, and one function per operation that the library uses.

use crate::keyer::engine::KeyTransition;
use vstd::prelude::*;

verus! {

/// `heapless::Deque`, held by value and used through the functions below.
#[verifier::external_type_specification]
#[verifier::external_body]
#[verifier::reject_recursive_types(T)]
pub struct ExDeque<T, const N: usize>(heapless::Deque<T, N>);

/// What a `push_back` leaves in a queue that holds at most `capacity` items.
pub open spec fn pushed_within<T>(s: Seq<T>, capacity: nat, item: T) -> Seq<T> {
    if s.len() < capacity {
        s.push(item)
    } else {
        s
    }
}

/// A queue without its oldest item.
pub open spec fn without_front<T>(s: Seq<T>) -> Seq<T> {
    if s.len() > 0 {
        s.drop_first()
    } else {
        s
    }
}

/// The oldest item of a queue.
pub open spec fn front_of<T>(s: Seq<T>) -> Option<T> {
    if s.len() > 0 {
        Some(s[0])
    } else {
        None
    }
}

/// A history of at most `capacity` items after one more item: the oldest one
/// makes room when the history is full.
pub open spec fn remembered<T>(s: Seq<T>, capacity: nat, item: T) -> Seq<T> {
    if s.len() < capacity {
        s.push(item)
    } else {
        s.drop_first().push(item)
    }
}

/// What a text history holds, oldest character first.
pub uninterp spec fn history_contents(d: heapless::Deque<u8, 32>) -> Seq<u8>;

/// `heapless::Deque::new`: the new queue is empty.
#[verifier::external_body]
pub(crate) fn history_new() -> (d: heapless::Deque<u8, 32>)
    ensures
        history_contents(d) == Seq::<u8>::empty(),
{
    heapless::Deque::new()
}

/// `heapless::Deque::len`: the number of items held.
#[verifier::external_body]
pub(crate) fn history_len(d: &heapless::Deque<u8, 32>) -> (n: usize)
    ensures
        n == history_contents(*d).len(),
{
    d.len()
}

/// `heapless::Deque::is_empty`: whether no item is held.
#[verifier::external_body]
pub(crate) fn history_is_empty(d: &heapless::Deque<u8, 32>) -> (r: bool)
    ensures
        r == (history_contents(*d).len() == 0),
{
    d.is_empty()
}

/// `heapless::Deque::is_full`: whether as many items are held as fit.
#[verifier::external_body]
pub(crate) fn history_is_full(d: &heapless::Deque<u8, 32>) -> (r: bool)
    ensures
        r == (history_contents(*d).len() == 32),
{
    d.is_full()
}

/// `heapless::Deque::clear`: drops every item.
#[verifier::external_body]
pub(crate) fn history_clear(d: &mut heapless::Deque<u8, 32>)
    ensures
        history_contents(*final(d)) == Seq::<u8>::empty(),
{
    d.clear()
}

/// `heapless::Deque::pop_front`: takes the oldest item out and returns it, or
/// returns `None` from an empty queue.
#[verifier::external_body]
pub(crate) fn history_pop_front(d: &mut heapless::Deque<u8, 32>) -> (r: Option<u8>)
    ensures
        history_contents(*final(d)) == without_front(history_contents(*old(d))),
        r == front_of(history_contents(*old(d))),
{
    d.pop_front()
}

/// `heapless::Deque::push_back`: appends the item where there is room; a full
/// queue stays as it is and the item comes back as the error.
#[verifier::external_body]
pub(crate) fn history_push_back(d: &mut heapless::Deque<u8, 32>, item: u8) -> (r: Result<(), u8>)
    ensures
        history_contents(*final(d)) == pushed_within(history_contents(*old(d)), 32, item),
        r is Ok <==> history_contents(*old(d)).len() < 32,
        r matches Err(e) ==> e == item,
{
    d.push_back(item)
}

/// `heapless::Deque::as_slices`: the items, oldest first, as two slices one
/// after the other.
#[verifier::external_body]
pub(crate) fn history_as_slices(d: &heapless::Deque<u8, 32>) -> (r: (&[u8], &[u8]))
    ensures
        r.0@ + r.1@ == history_contents(*d),
{
    d.as_slices()
}

/// What a record of key transitions holds, oldest transition first.
pub uninterp spec fn transition_contents(
    d: heapless::Deque<KeyTransition, 64>,
) -> Seq<KeyTransition>;

/// `heapless::Deque::new`: the new queue is empty.
#[verifier::external_body]
pub(crate) fn transitions_new() -> (d: heapless::Deque<KeyTransition, 64>)
    ensures
        transition_contents(d) == Seq::<KeyTransition>::empty(),
{
    heapless::Deque::new()
}

/// `heapless::Deque::len`: the number of items held.
#[verifier::external_body]
pub(crate) fn transitions_len(d: &heapless::Deque<KeyTransition, 64>) -> (n: usize)
    ensures
        n == transition_contents(*d).len(),
{
    d.len()
}

/// `heapless::Deque::is_full`: whether as many items are held as fit.
#[verifier::external_body]
pub(crate) fn transitions_is_full(d: &heapless::Deque<KeyTransition, 64>) -> (r: bool)
    ensures
        r == (transition_contents(*d).len() == 64),
{
    d.is_full()
}

/// `heapless::Deque::pop_front`: takes the oldest item out and returns it, or
/// returns `None` from an empty queue.
#[verifier::external_body]
pub(crate) fn transitions_pop_front(d: &mut heapless::Deque<KeyTransition, 64>) -> (r: Option<
    KeyTransition,
>)
    ensures
        transition_contents(*final(d)) == without_front(transition_contents(*old(d))),
        r == front_of(transition_contents(*old(d))),
{
    d.pop_front()
}

/// `heapless::Deque::push_back`: appends the item where there is room; a full
/// queue stays as it is and the item comes back as the error.
#[verifier::external_body]
pub(crate) fn transitions_push_back(
    d: &mut heapless::Deque<KeyTransition, 64>,
    item: KeyTransition,
) -> (r: Result<(), KeyTransition>)
    ensures
        transition_contents(*final(d)) == pushed_within(transition_contents(*old(d)), 64, item),
        r is Ok <==> transition_contents(*old(d)).len() < 64,
        r matches Err(e) ==> e == item,
{
    d.push_back(item)
}

} // verus!
