//! The state of the concatenating future and its one transition.

use crate::container::{
    is_concat_of, lemma_concat_elems_empty, lemma_concat_elems_push, Container,
};
use vstd::prelude::*;

verus! {

/// What the stream answered when it was asked for its next item.
#[derive(Debug, PartialEq, Eq)]
pub enum Pulled<C> {
    /// No item is ready yet; the stream will wake the task.
    NotReady,
    /// The stream has ended.
    Ended,
    /// The next item of the stream.
    Item(C),
}

/// What the driver of the future does after an answer of the stream.
#[derive(Debug, PartialEq, Eq)]
pub enum Advance<C> {
    /// Ask the stream again, at once.
    PullAgain,
    /// Report that the future is not ready, and wait to be woken.
    Suspend,
    /// Report that the future is ready with this container.
    Ready(C),
}

/// The state of a concatenating future as its contracts speak of it.
pub ghost struct ConcatView<C> {
    /// The items that the stream has handed out so far, oldest first.
    pub received: Seq<C>,
    /// Whether the future has yielded its container.
    pub completed: bool,
}

impl<C: Container> ConcatView<C> {
    /// The state of a future that has not been polled.
    pub open spec fn start() -> Self {
        ConcatView { received: Seq::empty(), completed: false }
    }

    /// The state after the stream answered `polled`.
    pub open spec fn step(self, polled: Pulled<C>) -> Self {
        match polled {
            Pulled::NotReady => self,
            Pulled::Ended => ConcatView { received: self.received, completed: true },
            Pulled::Item(e) => ConcatView {
                received: self.received.push(e),
                completed: self.completed,
            },
        }
    }

    /// The state after the stream gave the answers of `script`, one after
    /// the other.
    pub open spec fn run(self, script: Seq<Pulled<C>>) -> Self
        decreases script.len(),
    {
        if script.len() == 0 {
            self
        } else {
            self.run(script.drop_last()).step(script.last())
        }
    }

    /// Whether `told` is a fitting reply to the answer `polled` of the
    /// stream in this state: suspend when the stream is not ready, ask again
    /// after an item, and hand out the concatenation when the stream ends.
    pub open spec fn answers(self, polled: Pulled<C>, told: Advance<C>) -> bool {
        match polled {
            Pulled::NotReady => told is Suspend,
            Pulled::Item(_) => told is PullAgain,
            Pulled::Ended => told is Ready && is_concat_of(told->Ready_0, self.received),
        }
    }
}

/// A future that merges the containers of a stream into one.
///
/// The value holds the accumulator, the one container into which the items
/// are merged. The stream stays with the driver, which hands each of its
/// answers to [`Concat::poll`].
#[must_use]
pub struct Concat<C: Container> {
    accum: Option<C>,
    completed: bool,
    received: Ghost<Seq<C>>,
}

impl<C: Container> View for Concat<C> {
    type V = ConcatView<C>;

    closed spec fn view(&self) -> ConcatView<C> {
        ConcatView { received: self.received@, completed: self.completed }
    }
}

impl<C: Container> Concat<C> {
    /// The invariant of the accumulator: it is vacant until the first item
    /// arrives and after the future has completed; in between it holds the
    /// concatenation of the items received.
    pub closed spec fn wf(&self) -> bool {
        match self.accum {
            None => self.completed || self.received@.len() == 0,
            Some(a) => {
                &&& !self.completed
                &&& self.received@.len() > 0
                &&& is_concat_of(a, self.received@)
            },
        }
    }

    /// A future that has received nothing yet.
    pub fn new() -> (fut: Self)
        ensures
            fut.wf(),
            fut@ == ConcatView::<C>::start(),
    {
        Concat { accum: None, completed: false, received: Ghost(Seq::empty()) }
    }

    /// Whether the future has yielded its container. It must not be polled
    /// again then.
    pub fn is_completed(&self) -> (done: bool)
        ensures
            done == self@.completed,
    {
        self.completed
    }

    /// The accumulator: nothing before the first item and after completion,
    /// else the concatenation of the items received so far.
    pub fn accum(&self) -> (slot: Option<&C>)
        requires
            self.wf(),
        ensures
            slot is None <==> self@.completed || self@.received.len() == 0,
            slot is Some ==> is_concat_of(*slot.unwrap(), self@.received),
    {
        self.accum.as_ref()
    }

    /// Advances the future by one answer of the stream.
    ///
    /// An item is merged into the accumulator, and becomes the accumulator
    /// where it is the first. When the stream ends, the accumulator is handed
    /// out, or the empty container where no item has arrived. When the stream
    /// is not ready, nothing changes.
    pub fn poll(&mut self, polled: Pulled<C>) -> (told: Advance<C>)
        requires
            old(self).wf(),
            !old(self)@.completed,
        ensures
            final(self).wf(),
            final(self)@ == old(self)@.step(polled),
            old(self)@.answers(polled, told),
            polled is NotReady ==> *final(self) == *old(self),
    {
        match polled {
            Pulled::NotReady => Advance::Suspend,
            Pulled::Ended => {
                self.completed = true;
                let out = match self.accum.take() {
                    Some(a) => a,
                    None => C::empty(),
                };
                proof {
                    lemma_concat_elems_empty::<C>();
                }
                Advance::Ready(out)
            },
            Pulled::Item(e) => {
                let ghost before = self.received@;
                let ghost item = e;
                let slot = &mut self.accum;
                match slot {
                    Some(a) => a.absorb(e),
                    None => *slot = Some(e),
                }
                self.received = Ghost(before.push(item));
                proof {
                    lemma_concat_elems_push(before, item);
                }
                Advance::PullAgain
            },
        }
    }
}

} // verus!
