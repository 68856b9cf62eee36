//! Fallible growth and capacity of the standard containers, and sorting.
//!
//! How much a container has allocated is the allocator's affair, so nothing
//! here ties a capacity to anything but the length it must hold.

use std::collections::HashMap;
use vstd::prelude::*;

verus! {

/// `Vec::capacity`: how many elements fit before the vector grows. The
/// documentation promises that it is at least the length; nothing else is
/// claimed of it.
#[verifier::external_body]
pub(crate) fn vec_capacity<T>(vec: &Vec<T>) -> (capacity: usize)
    ensures
        capacity >= vec@.len(),
{
    vec.capacity()
}

/// `Vec::try_reserve_exact`: asks for room for `additional` more elements. The
/// elements stay as they are. The documentation promises that nothing is done
/// where the capacity suffices already, as it does for no more elements at all;
/// otherwise it is left open whether the allocator agrees.
#[verifier::external_body]
pub(crate) fn vec_try_reserve_exact<T>(vec: &mut Vec<T>, additional: usize) -> (reserved: bool)
    ensures
        final(vec)@ == old(vec)@,
        additional == 0 ==> reserved,
{
    vec.try_reserve_exact(additional).is_ok()
}

/// `Vec::shrink_to`: gives back room beyond `min_capacity`. The elements stay
/// as they are.
#[verifier::external_body]
pub(crate) fn vec_shrink_to<T>(vec: &mut Vec<T>, min_capacity: usize)
    ensures
        final(vec)@ == old(vec)@,
{
    vec.shrink_to(min_capacity)
}

/// `HashMap::try_reserve`: asks for room for `additional` more entries. The
/// entries stay as they are. The documentation promises that nothing is done
/// where the capacity suffices already, as it does for no more entries at all;
/// otherwise it is left open whether the allocator agrees.
#[verifier::external_body]
pub(crate) fn map_try_reserve<V>(map: &mut HashMap<u64, V>, additional: usize) -> (reserved: bool)
    ensures
        final(map)@ == old(map)@,
        additional == 0 ==> reserved,
{
    map.try_reserve(additional).is_ok()
}

/// `HashMap::capacity`: how many entries fit before the map grows. Nothing is
/// claimed of it.
#[verifier::external_body]
pub(crate) fn map_capacity(map: &HashMap<u64, usize>) -> (capacity: usize) {
    map.capacity()
}

/// `slice::sort_unstable` on numbers: the documentation promises that they stand
/// in ascending order afterwards; which of two equal numbers comes first makes
/// no difference.
#[verifier::external_body]
pub(crate) fn sort_numbers(numbers: &mut Vec<u64>)
    ensures
        final(numbers)@.to_multiset() == old(numbers)@.to_multiset(),
        forall|i: int, j: int| 0 <= i <= j < final(numbers)@.len() ==> final(numbers)@[i] <= final(numbers)@[j],
{
    numbers.sort_unstable()
}

/// `Vec::try_reserve` as a plain answer.
pub(crate) fn vec_try_reserve<T>(vec: &mut Vec<T>, additional: usize) -> (reserved: bool)
    ensures
        final(vec)@ == old(vec)@,
{
    vec.try_reserve(additional).is_ok()
}

} // verus!
