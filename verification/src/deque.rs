//! Access to the front of a `VecDeque` without removing it.

use std::collections::VecDeque;
use vstd::prelude::*;

verus! {

/// Calls `VecDeque::front_mut`. Not proved: for an empty deque the result is
/// `None` and the deque stays as it is; otherwise the result refers to the
/// front element, nothing is removed, and the deque ends up as it was before,
/// with its front element as the reference is left.
#[verifier::external_body]
pub(crate) fn front_mut<T>(deque: &mut VecDeque<T>) -> (front: Option<&mut T>)
    ensures
        old(deque)@.len() == 0 ==> front.is_none() && final(deque)@ == old(deque)@,
        old(deque)@.len() != 0 ==> front.is_some() && *front.unwrap() == old(deque)@[0]
            && final(deque)@ == old(deque)@.update(0, *final(front.unwrap())),
{
    deque.front_mut()
}

} // verus!
