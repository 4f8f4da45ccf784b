//! The priority queue that holds the candidates: `pairing_heap::PairingHeap`,
//! with what this crate takes on trust about it.
//!
//! The queue orders pairs of integers. A pair is greater than another when
//! its first number is greater, or the first numbers agree and its second
//! number is greater.

use pairing_heap::PairingHeap;
use vstd::multiset::Multiset;
use vstd::prelude::*;

verus! {

/// `pairing_heap::PairingHeap`, carried as an opaque value.
#[verifier::external_type_specification]
#[verifier::external_body]
#[verifier::reject_recursive_types(T)]
pub struct ExPairingHeap<T: Ord>(PairingHeap<T>);

/// The items that a queue holds, each as often as it was pushed and not yet
/// popped.
pub uninterp spec fn heap_items(heap: PairingHeap<(u64, u64)>) -> Multiset<(u64, u64)>;

/// The order of pairs: first by the first number, then by the second.
pub open spec fn pair_le(a: (u64, u64), b: (u64, u64)) -> bool {
    a.0 < b.0 || (a.0 == b.0 && a.1 <= b.1)
}

/// `item` is in `items` and no item of `items` is greater.
pub open spec fn is_greatest(items: Multiset<(u64, u64)>, item: (u64, u64)) -> bool {
    &&& items.contains(item)
    &&& forall|other: (u64, u64)| #[trigger] items.contains(other) ==> pair_le(other, item)
}

/// `PairingHeap::new`: the new queue holds nothing.
#[verifier::external_body]
pub(crate) fn heap_new() -> (heap: PairingHeap<(u64, u64)>)
    ensures
        heap_items(heap) == Multiset::<(u64, u64)>::empty(),
{
    PairingHeap::new()
}

/// `PairingHeap::push`: the queue holds one more occurrence of `item` and is
/// otherwise unchanged. The queue counts its items in a `usize`, so it must
/// hold fewer than `usize::MAX` of them.
#[verifier::external_body]
pub(crate) fn heap_push(heap: &mut PairingHeap<(u64, u64)>, item: (u64, u64))
    requires
        heap_items(*old(heap)).len() < usize::MAX,
    ensures
        heap_items(*final(heap)) == heap_items(*old(heap)).insert(item),
{
    heap.push(item)
}

/// `PairingHeap::peek`: a copy of the greatest item, or `None` when the queue
/// holds nothing.
#[verifier::external_body]
pub(crate) fn heap_peek(heap: &PairingHeap<(u64, u64)>) -> (top: Option<(u64, u64)>)
    ensures
        match top {
            Some(item) => is_greatest(heap_items(*heap), item),
            None => heap_items(*heap).len() == 0,
        },
{
    heap.peek().copied()
}

/// `PairingHeap::pop`: takes one occurrence of the greatest item out of the
/// queue and returns it; `None`, and the queue unchanged, when it holds
/// nothing.
#[verifier::external_body]
pub(crate) fn heap_pop(heap: &mut PairingHeap<(u64, u64)>) -> (top: Option<(u64, u64)>)
    ensures
        match top {
            Some(item) => {
                &&& is_greatest(heap_items(*old(heap)), item)
                &&& heap_items(*final(heap)) == heap_items(*old(heap)).remove(item)
            },
            None => {
                &&& heap_items(*old(heap)).len() == 0
                &&& heap_items(*final(heap)) == heap_items(*old(heap))
            },
        },
{
    heap.pop()
}

} // verus!
