//! Runs of a transformer, told by what the acceptance routine signalled.
//!
//! Verus knows what a routine does only through `call_ensures`, which need not
//! be a function of the item: a routine *may* signal one thing or another. The
//! predicates here say what a routine may, or can only, signal for an item, and
//! [`is_run`] says which outputs can come of which decisions. The lemmas then
//! fix the length of a run from what the routine can only signal.

use core::ops::ControlFlow;
use vstd::prelude::*;

verus! {

/// The item of `items` at `index`, if there is one.
pub open spec fn item_at<V>(items: Seq<V>, index: int) -> Option<V> {
    if 0 <= index < items.len() {
        Some(items[index])
    } else {
        None
    }
}

/// Shown `item`, the routine may accept it.
pub open spec fn may_accept<T, Accept, MapFn, Output>(accept: Accept, item: T) -> bool where
    MapFn: FnOnce(T) -> Output,
    Accept: FnMut(&mut T) -> ControlFlow<Option<Output>, MapFn>,
 {
    exists|peeked: &mut T, map: MapFn|
        *peeked == item && #[trigger] call_ensures(accept, (peeked,), ControlFlow::Continue(map))
}

/// Shown `item`, the routine may reject it, carrying `last`.
pub open spec fn may_reject<T, Accept, MapFn, Output>(
    accept: Accept,
    item: T,
    last: Option<Output>,
) -> bool where
    MapFn: FnOnce(T) -> Output,
    Accept: FnMut(&mut T) -> ControlFlow<Option<Output>, MapFn>,
 {
    exists|peeked: &mut T|
        *peeked == item && #[trigger] call_ensures(accept, (peeked,), ControlFlow::Break(last))
}

/// Shown `item`, the routine can only accept it.
pub open spec fn only_accepts<T, Accept, MapFn, Output>(accept: Accept, item: T) -> bool where
    MapFn: FnOnce(T) -> Output,
    Accept: FnMut(&mut T) -> ControlFlow<Option<Output>, MapFn>,
 {
    forall|peeked: &mut T, decision: ControlFlow<Option<Output>, MapFn>|
        *peeked == item && #[trigger] call_ensures(accept, (peeked,), decision)
            ==> decision is Continue
}

/// Shown `item`, the routine can only reject it, carrying `last`.
pub open spec fn only_rejects<T, Accept, MapFn, Output>(
    accept: Accept,
    item: T,
    last: Option<Output>,
) -> bool where
    MapFn: FnOnce(T) -> Output,
    Accept: FnMut(&mut T) -> ControlFlow<Option<Output>, MapFn>,
 {
    forall|peeked: &mut T, decision: ControlFlow<Option<Output>, MapFn>|
        *peeked == item && #[trigger] call_ensures(accept, (peeked,), decision) ==> decision
            == ControlFlow::<Option<Output>, MapFn>::Break(last)
}

/// A run over `source` that consumed its first `taken` items can have produced
/// `outputs`: the routine may have accepted each of those items, giving one
/// output each; if an item is left, the routine may have rejected the first
/// one left, and what it carried is the one further output, if any.
pub open spec fn is_run<T, Accept, MapFn, Output>(
    accept: Accept,
    source: Seq<T>,
    outputs: Seq<Output>,
    taken: int,
) -> bool where
    MapFn: FnOnce(T) -> Output,
    Accept: FnMut(&mut T) -> ControlFlow<Option<Output>, MapFn>,
 {
    &&& 0 <= taken <= source.len()
    &&& taken <= outputs.len() <= taken + 1
    &&& forall|i: int| 0 <= i < taken ==> may_accept(accept, #[trigger] source[i])
    &&& taken == source.len() ==> outputs.len() == taken
    &&& taken < source.len() ==> may_reject(accept, source[taken], item_at(outputs, taken))
}

/// Over an empty source a run produces nothing, whatever the routine.
pub proof fn lemma_empty_source<T, Accept, MapFn, Output>(
    accept: Accept,
    source: Seq<T>,
    outputs: Seq<Output>,
    taken: int,
) where
    MapFn: FnOnce(T) -> Output,
    Accept: FnMut(&mut T) -> ControlFlow<Option<Output>, MapFn>,

    requires
        is_run(accept, source, outputs, taken),
        source.len() == 0,
    ensures
        outputs.len() == 0,
        taken == 0,
{
}

/// If the routine can only accept the items of the source, a run consumes all
/// of them and produces one output for each.
pub proof fn lemma_accepts_all<T, Accept, MapFn, Output>(
    accept: Accept,
    source: Seq<T>,
    outputs: Seq<Output>,
    taken: int,
) where
    MapFn: FnOnce(T) -> Output,
    Accept: FnMut(&mut T) -> ControlFlow<Option<Output>, MapFn>,

    requires
        is_run(accept, source, outputs, taken),
        forall|i: int| 0 <= i < source.len() ==> only_accepts(accept, #[trigger] source[i]),
    ensures
        taken == source.len(),
        outputs.len() == source.len(),
{
    if taken < source.len() {
        assert(only_accepts(accept, source[taken]));
    }
}

/// If the routine can only accept the first `accepted` items and can only
/// reject the next one without a value, a run consumes and maps exactly those
/// `accepted` items: the rejected item stays in the source.
pub proof fn lemma_rejects_without_value<T, Accept, MapFn, Output>(
    accept: Accept,
    source: Seq<T>,
    outputs: Seq<Output>,
    taken: int,
    accepted: int,
) where
    MapFn: FnOnce(T) -> Output,
    Accept: FnMut(&mut T) -> ControlFlow<Option<Output>, MapFn>,

    requires
        is_run(accept, source, outputs, taken),
        0 <= accepted < source.len(),
        forall|i: int| 0 <= i < accepted ==> only_accepts(accept, #[trigger] source[i]),
        only_rejects(accept, source[accepted], None),
    ensures
        taken == accepted,
        outputs.len() == accepted,
{
    if taken < accepted {
        assert(only_accepts(accept, source[taken]));
    } else if taken > accepted {
        assert(may_accept(accept, source[accepted]));
    }
}

/// If the routine can only accept the first `accepted` items and can only
/// reject the next one with the value `last`, a run consumes and maps exactly
/// those `accepted` items and then produces `last`: the rejected item stays in
/// the source.
pub proof fn lemma_rejects_with_value<T, Accept, MapFn, Output>(
    accept: Accept,
    source: Seq<T>,
    outputs: Seq<Output>,
    taken: int,
    accepted: int,
    last: Output,
) where
    MapFn: FnOnce(T) -> Output,
    Accept: FnMut(&mut T) -> ControlFlow<Option<Output>, MapFn>,

    requires
        is_run(accept, source, outputs, taken),
        0 <= accepted < source.len(),
        forall|i: int| 0 <= i < accepted ==> only_accepts(accept, #[trigger] source[i]),
        only_rejects(accept, source[accepted], Some(last)),
    ensures
        taken == accepted,
        outputs.len() == accepted + 1,
        outputs[accepted] == last,
{
    if taken < accepted {
        assert(only_accepts(accept, source[taken]));
    } else if taken > accepted {
        assert(may_accept(accept, source[accepted]));
    }
}

} // verus!
