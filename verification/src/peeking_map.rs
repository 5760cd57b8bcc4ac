//! The peeking transformer.
//!
//! A [`PeekingMap`] borrows a source of items and an acceptance routine. Each
//! pull shows the routine the next item of the source, by mutable reference and
//! without consuming it. The routine answers with `ControlFlow::Continue(map)`
//! to accept the item, which is then consumed and handed to `map`, or with
//! `ControlFlow::Break(last)` to stop: `last`, if there is one, is produced as
//! the final value, and the item stays in the source as the routine left it.
//!
//! Verus knows what a routine does only through `call_requires` and
//! `call_ensures`, so the contracts below speak of what the routine *may* signal
//! for an item: of a reference `peeked` with `*peeked` the item as it was and
//! `*final(peeked)` the item as the routine left it. To Verus a call leaves the
//! routine itself as it was.

use crate::deque::front_mut;
use crate::run::is_run;
use crate::run::item_at;
use crate::run::may_accept;
use core::ops::ControlFlow;
use std::collections::VecDeque;
use vstd::prelude::*;

verus! {

/// Maps the leading items of a borrowed source for as long as an acceptance
/// routine accepts them.
///
/// Two states: active, and exhausted. An exhausted transformer produces
/// nothing and touches neither the source nor the routine.
#[verifier::reject_recursive_types(MapFn)]
#[verifier::reject_recursive_types(Output)]
pub struct PeekingMap<'a, T, Accept, MapFn, Output> where
    MapFn: FnOnce(T) -> Output,
    Accept: FnMut(&mut T) -> ControlFlow<Option<Output>, MapFn>,
 {
    source: &'a mut VecDeque<T>,
    accept: Accept,
    exhausted: bool,
}

impl<'a, T, Accept, MapFn, Output> PeekingMap<'a, T, Accept, MapFn, Output> where
    MapFn: FnOnce(T) -> Output,
    Accept: FnMut(&mut T) -> ControlFlow<Option<Output>, MapFn>,
 {
    /// The borrow of the source that the transformer holds: `source()@` is
    /// what the source holds now, `final(source())@` what it will hold when the
    /// borrow ends. No operation exchanges the borrow for another.
    pub closed spec fn source(&self) -> &'a mut VecDeque<T> {
        self.source
    }

    /// The items that are still in the source, the next one first.
    pub open spec fn remaining(&self) -> Seq<T> {
        self.source()@
    }

    /// The acceptance routine.
    pub closed spec fn accept(&self) -> Accept {
        self.accept
    }

    /// Whether the transformer has stopped for good.
    pub closed spec fn exhausted(&self) -> bool {
        self.exhausted
    }

    /// When the transformer is no longer used, the source holds what remained.
    pub proof fn lemma_released(self)
        requires
            has_resolved(self),
        ensures
            final(self.source())@ == self.remaining(),
    {
    }

    /// An active transformer over `source`. Nothing of the source is inspected
    /// yet.
    pub fn new(source: &'a mut VecDeque<T>, accept: Accept) -> (transformer: Self)
        ensures
            transformer.remaining() == old(source)@,
            final(transformer.source())@ == final(source)@,
            transformer.accept() == accept,
            !transformer.exhausted(),
    {
        PeekingMap { source, accept, exhausted: false }
    }

    /// Pulls the next output.
    ///
    /// An exhausted transformer, or an empty source, gives `None` and leaves
    /// everything as it is. Otherwise the routine is shown the front item, and
    /// either the item is consumed and mapped, or the transformer becomes
    /// exhausted, the result is what the routine's `Break` carries, and the item
    /// stays at the front as the routine left it.
    pub fn next(&mut self) -> (out: Option<Output>)
        requires
            !old(self).exhausted() && old(self).remaining().len() > 0 ==> {
                &&& forall|peeked: &mut T|
                    *peeked == old(self).remaining()[0] ==> #[trigger] call_requires(
                        old(self).accept(),
                        (peeked,),
                    )
                &&& forall|peeked: &mut T, map: MapFn|
                    *peeked == old(self).remaining()[0] && #[trigger] call_ensures(
                        old(self).accept(),
                        (peeked,),
                        ControlFlow::Continue(map),
                    ) ==> call_requires(map, (*final(peeked),))
            },
        ensures
            final(self).accept() == old(self).accept(),
            final(final(self).source())@ == final(old(self).source())@,
            old(self).exhausted() || old(self).remaining().len() == 0 ==> {
                &&& out.is_none()
                &&& final(self).exhausted()
                &&& final(self).remaining() == old(self).remaining()
            },
            !old(self).exhausted() && old(self).remaining().len() > 0 ==> {
                ||| {
                    &&& out.is_some()
                    &&& !final(self).exhausted()
                    &&& final(self).remaining() == old(self).remaining().drop_first()
                    &&& exists|peeked: &mut T, map: MapFn|
                        *peeked == old(self).remaining()[0] && #[trigger] call_ensures(
                            old(self).accept(),
                            (peeked,),
                            ControlFlow::Continue(map),
                        ) && call_ensures(map, (*final(peeked),), out.unwrap())
                }
                ||| {
                    &&& final(self).exhausted()
                    &&& exists|peeked: &mut T|
                        *peeked == old(self).remaining()[0] && #[trigger] call_ensures(
                            old(self).accept(),
                            (peeked,),
                            ControlFlow::Break(out),
                        ) && final(self).remaining() == old(self).remaining().update(
                            0,
                            *final(peeked),
                        )
                }
            },
            out.is_none() ==> final(self).exhausted(),
    {
        if self.exhausted {
            return None;
        }
        match front_mut(self.source) {
            None => {
                self.exhausted = true;
                None
            },
            Some(item) => {
                assert(self.accept == old(self).accept());
                match (self.accept)(item) {
                    ControlFlow::Continue(map) => Some(map(self.source.pop_front()?)),
                    ControlFlow::Break(last) => {
                        self.exhausted = true;
                        last
                    },
                }
            },
        }
    }

    /// Pulls until the transformer is exhausted and returns what was produced,
    /// in order.
    ///
    /// With `taken` the number of items that left the source, the outputs are
    /// those of a run that consumed `taken` items. Each of the first `taken`
    /// outputs is what the chosen mapping made of the item at its index, as
    /// the routine left it. If anything is left in the source, its front is the
    /// item that the routine rejected, as the routine left it, and the items
    /// behind it are untouched.
    pub fn collect(&mut self) -> (outputs: Vec<Output>)
        requires
            !old(self).exhausted() ==> {
                &&& forall|peeked: &mut T|
                    old(self).remaining().contains(*peeked) ==> #[trigger] call_requires(
                        old(self).accept(),
                        (peeked,),
                    )
                &&& forall|peeked: &mut T, map: MapFn|
                    old(self).remaining().contains(*peeked) && #[trigger] call_ensures(
                        old(self).accept(),
                        (peeked,),
                        ControlFlow::Continue(map),
                    ) ==> call_requires(map, (*final(peeked),))
            },
        ensures
            final(self).exhausted(),
            final(self).accept() == old(self).accept(),
            final(final(self).source())@ == final(old(self).source())@,
            old(self).exhausted() || old(self).remaining().len() == 0 ==> {
                &&& outputs@.len() == 0
                &&& final(self).remaining() == old(self).remaining()
            },
            !old(self).exhausted() ==> ({
                let source = old(self).remaining();
                let rest = final(self).remaining();
                let taken = source.len() - rest.len();
                &&& is_run(old(self).accept(), source, outputs@, taken)
                &&& forall|i: int|
                    0 <= i < taken ==> #[trigger] item_at(source, i).is_some() && exists|
                        peeked: &mut T,
                        map: MapFn,
                    |
                        *peeked == source[i] && #[trigger] call_ensures(
                            old(self).accept(),
                            (peeked,),
                            ControlFlow::Continue(map),
                        ) && call_ensures(map, (*final(peeked),), outputs@[i])
                &&& rest.len() > 0 ==> exists|peeked: &mut T|
                    *peeked == source[taken] && #[trigger] call_ensures(
                        old(self).accept(),
                        (peeked,),
                        ControlFlow::Break(item_at(outputs@, taken)),
                    ) && rest == source.skip(taken).update(0, *final(peeked))
            }),
    {
        let mut outputs: Vec<Output> = Vec::new();
        while !self.exhausted
            invariant
                self.accept() == old(self).accept(),
                final(self.source())@ == final(old(self).source())@,
                old(self).exhausted() ==> self.exhausted() && outputs@.len() == 0
                    && self.remaining() == old(self).remaining(),
                !old(self).exhausted() ==> {
                    &&& forall|peeked: &mut T|
                        old(self).remaining().contains(*peeked) ==> #[trigger] call_requires(
                            old(self).accept(),
                            (peeked,),
                        )
                    &&& forall|peeked: &mut T, map: MapFn|
                        old(self).remaining().contains(*peeked) && #[trigger] call_ensures(
                            old(self).accept(),
                            (peeked,),
                            ControlFlow::Continue(map),
                        ) ==> call_requires(map, (*final(peeked),))
                },
                !old(self).exhausted() ==> ({
                    let source = old(self).remaining();
                    let rest = self.remaining();
                    let taken = source.len() - rest.len();
                    &&& 0 <= taken <= outputs@.len() <= taken + 1
                    &&& !self.exhausted() ==> outputs@.len() == taken && rest == source.skip(taken)
                    &&& self.exhausted() ==> is_run(old(self).accept(), source, outputs@, taken)
                    &&& forall|i: int| 0 <= i < taken ==> may_accept(old(self).accept(), #[trigger] source[i])
                    &&& forall|i: int|
                        0 <= i < taken ==> #[trigger] item_at(source, i).is_some() && exists|
                            peeked: &mut T,
                            map: MapFn,
                        |
                            *peeked == source[i] && #[trigger] call_ensures(
                                old(self).accept(),
                                (peeked,),
                                ControlFlow::Continue(map),
                            ) && call_ensures(map, (*final(peeked),), outputs@[i])
                    &&& self.exhausted() && rest.len() > 0 ==> exists|peeked: &mut T|
                        *peeked == source[taken] && #[trigger] call_ensures(
                            old(self).accept(),
                            (peeked,),
                            ControlFlow::Break(item_at(outputs@, taken)),
                        ) && rest == source.skip(taken).update(0, *final(peeked))
                }),
            decreases self.remaining().len() + (if self.exhausted() { 0int } else { 1int }),
        {
            let ghost seen = outputs@;
            if let Some(output) = self.next() {
                outputs.push(output);
            }
            proof {
                let source = old(self).remaining();
                let taken = source.len() - self.remaining().len();
                assert forall|i: int| 0 <= i < taken implies #[trigger] item_at(
                    source,
                    i,
                ).is_some() && exists|peeked: &mut T, map: MapFn|
                    *peeked == source[i] && #[trigger] call_ensures(
                        old(self).accept(),
                        (peeked,),
                        ControlFlow::Continue(map),
                    ) && call_ensures(map, (*final(peeked),), outputs@[i]) by {
                    if i < seen.len() {
                        assert(outputs@[i] == seen[i]);
                    }
                }
            }
        }
        outputs
    }
}

} // verus!
