//! What a queue of states is.

use vstd::prelude::*;

use crate::StateId;

verus! {

/// The disciplines of queues.
#[derive(Clone, Copy, Debug, PartialEq, Eq, Structural, Hash)]
pub enum QueueType {
    /// Single state queue.
    TrivialQueue,
    /// First-in, first-out queue.
    FifoQueue,
    /// Last-in, first-out queue.
    LifoQueue,
    /// Shortest-first queue.
    ShortestFirstQueue,
    /// Topologically-ordered queue.
    TopOrderQueue,
    /// State-ID ordered queue.
    StateOrderQueue,
    /// Component graph top-ordered meta-queue.
    SccQueue,
    /// Auto-selected queue.
    AutoQueue,
    OtherQueue,
}

/// A queue of states. Its view is the states that wait, in the order in
/// which they are served. Each discipline says where a state is put.
pub trait Queue {
    spec fn view(&self) -> Seq<StateId>;

    /// The validity of the queue.
    spec fn inv(&self) -> bool;

    /// Whether the queue can take `state`.
    spec fn accepts(&self, state: StateId) -> bool;

    /// The states that wait after `state` was put into the queue.
    spec fn enqueue_spec(&self, state: StateId) -> Seq<StateId>;

    /// The states that wait after the queue was told that the place of
    /// `state` may have changed.
    spec fn update_spec(&self, state: StateId) -> Seq<StateId>;

    /// The state that is served next, if one waits.
    fn head(&mut self) -> (r: Option<StateId>)
        requires
            old(self).inv(),
        ensures
            final(self).inv(),
            final(self).view() == old(self).view(),
            forall|state: StateId| final(self).accepts(state) == old(self).accepts(state),
            old(self).view().len() == 0 ==> r is None,
            old(self).view().len() > 0 ==> r == Some(old(self).view()[0]),
    ;

    /// Puts `state` into the queue.
    fn enqueue(&mut self, state: StateId)
        requires
            old(self).inv(),
            old(self).accepts(state),
        ensures
            final(self).inv(),
            final(self).view() == old(self).enqueue_spec(state),
            final(self).view().len() == old(self).view().len() + 1,
            forall|other: StateId| final(self).accepts(other) == old(self).accepts(other),
    ;

    /// Takes out the state that is served next, if one waits.
    fn dequeue(&mut self)
        requires
            old(self).inv(),
        ensures
            final(self).inv(),
            forall|state: StateId| final(self).accepts(state) == old(self).accepts(state),
            old(self).view().len() == 0 ==> final(self).view() == old(self).view(),
            old(self).view().len() > 0 ==> final(self).view() == old(self).view().drop_first(),
    ;

    /// Tells the queue that the place of `state` may have changed.
    fn update(&mut self, state: StateId)
        requires
            old(self).inv(),
            old(self).accepts(state),
        ensures
            final(self).inv(),
            final(self).view() == old(self).update_spec(state),
            final(self).view().len() == old(self).view().len(),
            forall|other: StateId| final(self).accepts(other) == old(self).accepts(other),
    ;

    fn is_empty(&self) -> (b: bool)
        requires
            self.inv(),
        ensures
            b == (self.view().len() == 0),
    ;

    /// Takes out every state.
    fn clear(&mut self)
        requires
            old(self).inv(),
        ensures
            final(self).inv(),
            final(self).view().len() == 0,
            forall|state: StateId| final(self).accepts(state) == old(self).accepts(state),
    ;

    /// The discipline of the queue.
    spec fn queue_type_spec(&self) -> QueueType;

    fn queue_type(&self) -> (t: QueueType)
        ensures
            t == self.queue_type_spec(),
    ;
}

} // verus!
