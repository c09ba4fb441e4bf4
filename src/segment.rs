use vstd::prelude::*;
use slice_deque::SliceDeque;
use crate::cross_point::CrossPointType;

verus! {

#[verifier::external_type_specification]
#[verifier::external_body]
#[verifier::reject_recursive_types(T)]
pub struct ExSliceDeque<T>(SliceDeque<T>);

/// The cell states a deque holds, front to back.
pub uninterp spec fn deque_cells(d: SliceDeque<CrossPointType>) -> Seq<CrossPointType>;

/// Relies on `SliceDeque::with_capacity`: a new deque holds nothing.
#[verifier::external_body]
pub(crate) fn segment_with_capacity(capacity: usize) -> (d: SliceDeque<CrossPointType>)
    ensures
        deque_cells(d) == Seq::<CrossPointType>::empty(),
{
    SliceDeque::with_capacity(capacity)
}

/// Relies on `SliceDeque::push_front`: the value becomes the first element.
#[verifier::external_body]
pub(crate) fn segment_push_front(d: &mut SliceDeque<CrossPointType>, value: CrossPointType)
    ensures
        deque_cells(*final(d)) == seq![value] + deque_cells(*old(d)),
{
    d.push_front(value)
}

/// Relies on `SliceDeque::push_back`: the value becomes the last element.
#[verifier::external_body]
pub(crate) fn segment_push_back(d: &mut SliceDeque<CrossPointType>, value: CrossPointType)
    ensures
        deque_cells(*final(d)) == deque_cells(*old(d)).push(value),
{
    d.push_back(value)
}

/// Relies on `SliceDeque::as_slice`: the slice holds the elements front to back.
#[verifier::external_body]
pub(crate) fn segment_cells(d: &SliceDeque<CrossPointType>) -> (r: &[CrossPointType])
    ensures
        r@ == deque_cells(*d),
{
    d.as_slice()
}

} // verus!
