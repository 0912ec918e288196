//! Join handles: how the value of a finished task reaches the task that waits for it.
//!
//! A handle names a slot. The slot holds the value once the task has finished, and the waker of
//! the task that waits for it until then. All clones of a handle name the same slot.
use vstd::prelude::*;

use crate::poll::Poll;
use std::collections::HashMap;

verus! {

broadcast use vstd::std_specs::hash::group_hash_axioms;

/// What the slot of a join handle holds.
#[derive(Debug)]
pub struct JoinCell<T, W> {
    pub result: Option<T>,
    pub waker: Option<W>,
}

impl<T, W> JoinCell<T, W> {
    /// The slot of a task that has not finished and that nobody waits for.
    pub open spec fn empty() -> Self {
        JoinCell { result: None, waker: None }
    }

    /// The slot after the task has finished with `value`.
    pub open spec fn completed(self, value: T) -> Self {
        JoinCell { result: Some(value), waker: None }
    }

    /// The slot after the handle was polled with `waker`.
    pub open spec fn polled(self, waker: W) -> Self {
        match self.result {
            Some(_) => JoinCell { result: None, waker: self.waker },
            None => JoinCell { result: None, waker: Some(waker) },
        }
    }

    /// What polling the handle reports.
    pub open spec fn outcome(self) -> Poll<T> {
        match self.result {
            Some(value) => Poll::Ready(value),
            None => Poll::Pending,
        }
    }
}

/// The slots of all join handles.
#[derive(Debug)]
pub struct JoinCells<T, W> {
    cells: HashMap<u64, JoinCell<T, W>>,
    next: u64,
}

impl<T, W> JoinCells<T, W> {
    pub closed spec fn view(&self) -> Map<u64, JoinCell<T, W>> {
        self.cells@
    }

    /// The number that the next slot gets.
    pub closed spec fn next(&self) -> u64 {
        self.next
    }

    /// No slot in use has a number that is still to be given out.
    pub open spec fn wf(&self) -> bool {
        forall|slot: u64| self@.contains_key(slot) ==> slot < self.next()
    }

    /// No slots at all.
    pub fn new() -> (cells: Self)
        ensures
            cells.wf(),
            cells@ == Map::<u64, JoinCell<T, W>>::empty(),
            cells.next() == 0,
    {
        JoinCells { cells: HashMap::new(), next: 0 }
    }

    /// Whether a number is left for one more slot.
    pub fn has_room(&self) -> (room: bool)
        ensures
            room == (self.next() < u64::MAX),
    {
        self.next < u64::MAX
    }

    /// Whether `slot` is in use.
    pub fn contains(&self, slot: u64) -> (found: bool)
        ensures
            found == self@.contains_key(slot),
    {
        self.cells.contains_key(&slot)
    }

    /// Gives up the slot of a handle none of whose clones is left, and hands out what it held.
    pub fn release(&mut self, handle: JoinHandle) -> (cell: Option<JoinCell<T, W>>)
        requires
            old(self).wf(),
        ensures
            final(self).wf(),
            final(self).next() == old(self).next(),
            final(self)@ == old(self)@.remove(handle.slot),
            cell == (if old(self)@.contains_key(handle.slot) {
                Some(old(self)@[handle.slot])
            } else {
                None
            }),
    {
        let cell = self.cells.remove(&handle.slot);
        assert(self@ =~= old(self)@.remove(handle.slot));
        cell
    }
}

/// Names the slot in which the value of one task arrives.
#[derive(Debug, PartialEq, Eq, Structural)]
pub struct JoinHandle {
    pub slot: u64,
}

impl JoinHandle {
    /// A handle with a slot of its own, in which nothing has arrived and for which nobody waits.
    pub fn new<T, W>(cells: &mut JoinCells<T, W>) -> (handle: Self)
        requires
            old(cells).wf(),
            old(cells).next() < u64::MAX,
        ensures
            final(cells).wf(),
            final(cells).next() == old(cells).next() + 1,
            handle.slot == old(cells).next(),
            !old(cells)@.contains_key(handle.slot),
            final(cells)@ == old(cells)@.insert(handle.slot, JoinCell::empty()),
    {
        let slot = cells.next;
        cells.cells.insert(slot, JoinCell { result: None, waker: None });
        cells.next = slot + 1;
        assert(cells@ =~= old(cells)@.insert(slot, JoinCell::empty()));
        JoinHandle { slot }
    }

    /// Another handle to the same slot.
    pub fn clone(&self) -> (handle: Self)
        ensures
            handle == *self,
    {
        JoinHandle { slot: self.slot }
    }

    /// Asks for the value of the task. If it has arrived it is taken out of the slot; if not,
    /// `waker` takes the place of the waker that waited before, and is to be woken when the task
    /// finishes.
    pub fn poll<T, W>(&self, cells: &mut JoinCells<T, W>, waker: W) -> (outcome: Poll<T>)
        requires
            old(cells).wf(),
            old(cells)@.contains_key(self.slot),
        ensures
            final(cells).wf(),
            final(cells).next() == old(cells).next(),
            outcome == old(cells)@[self.slot].outcome(),
            final(cells)@ == old(cells)@.insert(self.slot, old(cells)@[self.slot].polled(waker)),
    {
        match cells.cells.remove(&self.slot) {
            Some(mut cell) => {
                let outcome = match cell.result.take() {
                    Some(value) => Poll::Ready(value),
                    None => {
                        cell.waker = Some(waker);
                        Poll::Pending
                    },
                };
                cells.cells.insert(self.slot, cell);
                assert(cells@ =~= old(cells)@.insert(
                    self.slot,
                    old(cells)@[self.slot].polled(waker),
                ));
                outcome
            },
            None => Poll::Pending,
        }
    }

    /// Puts the value of the finished task into the slot, and hands out the waker that waits for
    /// it: the caller is to wake it.
    pub fn complete<T, W>(&self, cells: &mut JoinCells<T, W>, value: T) -> (waker: Option<W>)
        requires
            old(cells).wf(),
            old(cells)@.contains_key(self.slot),
        ensures
            final(cells).wf(),
            final(cells).next() == old(cells).next(),
            waker == old(cells)@[self.slot].waker,
            final(cells)@ == old(cells)@.insert(
                self.slot,
                old(cells)@[self.slot].completed(value),
            ),
    {
        match cells.cells.remove(&self.slot) {
            Some(mut cell) => {
                cell.result = Some(value);
                let waker = cell.waker.take();
                cells.cells.insert(self.slot, cell);
                assert(cells@ =~= old(cells)@.insert(
                    self.slot,
                    old(cells)@[self.slot].completed(value),
                ));
                waker
            },
            None => None,
        }
    }

    /// What a task does with the outcome of polling its future: a value goes into the slot, and
    /// the waker that waits for it is handed out to be woken.
    pub fn settle<T, W>(&self, cells: &mut JoinCells<T, W>, outcome: Poll<T>) -> (r: (
        Poll<()>,
        Option<W>,
    ))
        requires
            old(cells).wf(),
            old(cells)@.contains_key(self.slot),
        ensures
            final(cells).wf(),
            final(cells).next() == old(cells).next(),
            outcome is Pending ==> r.0 is Pending && r.1 is None && final(cells)@ == old(cells)@,
            outcome matches Poll::Ready(value) ==> {
                &&& r.0 == Poll::Ready(())
                &&& r.1 == old(cells)@[self.slot].waker
                &&& final(cells)@ == old(cells)@.insert(
                    self.slot,
                    old(cells)@[self.slot].completed(value),
                )
            },
    {
        match outcome {
            Poll::Pending => (Poll::Pending, None),
            Poll::Ready(value) => {
                let waker = self.complete(cells, value);
                (Poll::Ready(()), waker)
            },
        }
    }
}

/// A value that a task finishes with is handed to whoever polls the handle next, once and no more:
/// the poll after that finds the slot empty again.
pub proof fn law_value_is_delivered_once<T, W>(cell: JoinCell<T, W>, value: T, first: W, second: W)
    ensures
        cell.completed(value).outcome() == Poll::Ready(value),
        cell.completed(value).polled(first).outcome() == Poll::<T>::Pending,
        cell.completed(value).polled(first).polled(second).waker == Some(second),
{
}

/// Whoever polled the handle last before the task finished is the one that is woken when it
/// finishes, and then gets the value; wakers of earlier polls are forgotten.
pub proof fn law_last_waiter_is_woken<T, W>(
    cell: JoinCell<T, W>,
    earlier: W,
    last: W,
    again: W,
    value: T,
)
    requires
        cell.result is None,
    ensures
        cell.polled(earlier).outcome() == Poll::<T>::Pending,
        cell.polled(earlier).polled(last).waker == Some(last),
        cell.polled(earlier).polled(last).completed(value).waker is None,
        cell.polled(earlier).polled(last).completed(value).outcome() == Poll::Ready(value),
        cell.polled(earlier).polled(last).completed(value).polled(again) == JoinCell::<
            T,
            W,
        >::empty(),
{
}

/// A slot holds a value from the moment at which its task finishes until it is handed out, and a
/// waker from the moment at which somebody waits until it is woken. What finishing and polling
/// leave in the slot and report follows from what was in it.
pub proof fn law_slot_holds_value_and_waker<T, W>(cell: JoinCell<T, W>, value: T, waker: W)
    ensures
        JoinCell::<T, W>::empty().result is None,
        JoinCell::<T, W>::empty().waker is None,
        cell.completed(value).result == Some(value),
        cell.completed(value).waker is None,
        cell.result matches Some(held) ==> cell.outcome() == Poll::Ready(held) && cell.polled(
            waker,
        ).waker == cell.waker,
        cell.result is None ==> cell.outcome() is Pending && cell.polled(waker).waker == Some(
            waker,
        ),
        cell.polled(waker).result is None,
{
}

} // verus!
