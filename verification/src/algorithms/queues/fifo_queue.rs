//! The queue that serves the states in the order in which they came.

use std::collections::VecDeque;
use vstd::prelude::*;

use crate::algorithms::queues::queue::{Queue, QueueType};
use crate::StateId;

verus! {

/// First-in, first-out queue discipline.
pub struct FifoQueue {
    states: VecDeque<StateId>,
}

impl FifoQueue {
    pub fn new() -> (queue: Self)
        ensures
            queue.inv(),
            queue.view() == Seq::<StateId>::empty(),
    {
        FifoQueue { states: VecDeque::new() }
    }
}

impl Queue for FifoQueue {
    closed spec fn view(&self) -> Seq<StateId> {
        self.states@
    }

    open spec fn inv(&self) -> bool {
        true
    }

    open spec fn accepts(&self, state: StateId) -> bool {
        true
    }

    /// A state is put behind those that wait.
    open spec fn enqueue_spec(&self, state: StateId) -> Seq<StateId> {
        self.view().push(state)
    }

    open spec fn update_spec(&self, state: StateId) -> Seq<StateId> {
        self.view()
    }

    fn head(&mut self) -> (r: Option<StateId>) {
        if self.states.len() > 0 {
            Some(self.states[0])
        } else {
            None
        }
    }

    fn enqueue(&mut self, state: StateId) {
        self.states.push_back(state);
    }

    fn dequeue(&mut self) {
        let _ = self.states.pop_front();
        assert(old(self).view().len() > 0 ==> self.view() =~= old(self).view().drop_first());
    }

    fn update(&mut self, _state: StateId) {
    }

    fn is_empty(&self) -> (b: bool) {
        self.states.len() == 0
    }

    fn clear(&mut self) {
        self.states.clear();
    }

    open spec fn queue_type_spec(&self) -> QueueType {
        QueueType::FifoQueue
    }

    fn queue_type(&self) -> (t: QueueType) {
        QueueType::FifoQueue
    }
}

} // verus!
