//! The queue that serves the states component by component.

use vstd::prelude::*;

use crate::algorithms::queues::queue::{Queue, QueueType};
use crate::StateId;

verus! {

/// The states that wait in the queues `lo` to `hi - 1`, those of a queue
/// with a smaller index first.
pub open spec fn waiting(views: Seq<Seq<StateId>>, lo: int, hi: int) -> Seq<StateId>
    decreases hi - lo,
{
    if lo >= hi {
        Seq::empty()
    } else {
        waiting(views, lo, hi - 1) + views[hi - 1]
    }
}

/// What waits in each of the queues `queues`.
pub open spec fn views_of(queues: Seq<Box<dyn Queue>>) -> Seq<Seq<StateId>> {
    Seq::new(queues.len(), |i: int| queues[i].view())
}

proof fn lemma_waiting_front(views: Seq<Seq<StateId>>, lo: int, hi: int)
    requires
        0 <= lo < hi <= views.len(),
    ensures
        waiting(views, lo, hi) == views[lo] + waiting(views, lo + 1, hi),
    decreases hi - lo,
{
    if lo + 1 < hi {
        lemma_waiting_front(views, lo, hi - 1);
        assert((views[lo] + waiting(views, lo + 1, hi - 1)) + views[hi - 1] =~= views[lo] + (
        waiting(views, lo + 1, hi - 1) + views[hi - 1]));
    } else {
        assert(waiting(views, lo, hi - 1) =~= Seq::empty());
        assert(waiting(views, lo + 1, hi) =~= Seq::empty());
        assert(waiting(views, lo, hi) =~= views[lo] + waiting(views, lo + 1, hi));
    }
}

proof fn lemma_waiting_same(a: Seq<Seq<StateId>>, b: Seq<Seq<StateId>>, lo: int, hi: int)
    requires
        0 <= lo,
        hi <= a.len(),
        hi <= b.len(),
        forall|i: int| lo <= i < hi ==> a[i] == b[i],
    ensures
        waiting(a, lo, hi) == waiting(b, lo, hi),
    decreases hi - lo,
{
    if lo < hi {
        lemma_waiting_same(a, b, lo, hi - 1);
    }
}

proof fn lemma_waiting_empty(views: Seq<Seq<StateId>>, lo: int, hi: int)
    requires
        0 <= lo,
        hi <= views.len(),
        forall|i: int| lo <= i < hi ==> views[i].len() == 0,
    ensures
        waiting(views, lo, hi) == Seq::<StateId>::empty(),
    decreases hi - lo,
{
    if lo < hi {
        lemma_waiting_empty(views, lo, hi - 1);
        assert(waiting(views, lo, hi - 1) + views[hi - 1] =~= Seq::<StateId>::empty());
    }
}

proof fn lemma_waiting_len(views: Seq<Seq<StateId>>, lo: int, hi: int, k: int)
    requires
        0 <= lo <= k < hi <= views.len(),
    ensures
        waiting(views, lo, hi).len() >= views[k].len(),
    decreases hi - lo,
{
    if k < hi - 1 {
        lemma_waiting_len(views, lo, hi - 1, k);
    }
}

/// The states that wait after the queue `k` was changed to hold `view`.
proof fn lemma_waiting_update(
    views: Seq<Seq<StateId>>,
    lo: int,
    hi: int,
    k: int,
    view: Seq<StateId>,
)
    requires
        0 <= lo <= k < hi <= views.len(),
    ensures
        waiting(views.update(k, view), lo, hi).len() == waiting(views, lo, hi).len()
            + view.len() - views[k].len(),
    decreases hi - lo,
{
    if k < hi - 1 {
        lemma_waiting_update(views, lo, hi - 1, k, view);
    } else {
        lemma_waiting_same(views, views.update(k, view), lo, hi - 1);
    }
}

/// The queues `queues` and the components `sccs` make a queue by
/// components: there are no more queues than an `i32` counts, each queue is
/// valid and empty, and each state has the number of one of the queues as
/// its component.
pub open spec fn fit(queues: Seq<Box<dyn Queue>>, sccs: Seq<StateId>) -> bool {
    &&& queues.len() <= i32::MAX
    &&& forall|i: int|
        0 <= i < queues.len() ==> (#[trigger] queues[i]).inv() && queues[i].view().len() == 0
    &&& forall|state: int| 0 <= state < sccs.len() ==> (#[trigger] sccs[state]) < queues.len()
}

/// SCC-based queue discipline: the states are served in the order of the
/// components that they belong to, and those of one component by the queue
/// of that component.
pub struct SccQueue {
    front: i32,
    back: i32,
    queues: Vec<Box<dyn Queue>>,
    sccs: Vec<StateId>,
}

impl SccQueue {
    /// The validity of the queue: `front` and `back` bound the queues in
    /// which a state may wait.
    pub closed spec fn valid(&self) -> bool {
        &&& self.queues@.len() <= i32::MAX
        &&& 0 <= self.front
        &&& -1 <= self.back < self.queues@.len()
        &&& self.front <= self.back + 1
        &&& forall|i: int| 0 <= i < self.queues@.len() ==> (#[trigger] self.queues@[i]).inv()
        &&& forall|i: int|
            0 <= i < self.queues@.len() && !(self.front <= i <= self.back) ==> (
            #[trigger] self.queues@[i]).view().len() == 0
        &&& forall|state: int|
            0 <= state < self.sccs@.len() ==> (#[trigger] self.sccs@[state]) < self.queues@.len()
    }

    /// The queues of the components.
    pub closed spec fn queues_spec(&self) -> Seq<Box<dyn Queue>> {
        self.queues@
    }

    /// The component of each state.
    pub closed spec fn sccs_spec(&self) -> Seq<StateId> {
        self.sccs@
    }

    /// The queue over the queues `queues`, one for each component, where
    /// `sccs` gives the component of each state. No state waits in it. It
    /// is valid, and so can be used, if and only if the queues fit it.
    pub fn new(queues: Vec<Box<dyn Queue>>, sccs: Vec<StateId>) -> (queue: Self)
        ensures
            queue.queues_spec() == queues@,
            queue.sccs_spec() == sccs@,
            queue.view() == Seq::<StateId>::empty(),
            queue.inv() == fit(queues@, sccs@),
            forall|state: StateId|
                queue.accepts(state) == (state < sccs@.len()
                    && queues@[sccs@[state as int] as int].accepts(
                    state,
                )),
    {
        Self { front: 0, back: -1, queues, sccs }
    }

    /// Moves `front` to the first queue in which a state waits.
    fn settle(&mut self)
        requires
            old(self).valid(),
        ensures
            final(self).valid(),
            final(self).view() == old(self).view(),
            final(self).queues == old(self).queues,
            final(self).sccs == old(self).sccs,
            final(self).front <= final(self).back
                ==> final(self).queues@[final(self).front as int].view().len() > 0,
    {
        while self.front <= self.back && self.queues[self.front as usize].is_empty()
            invariant
                self.valid(),
                self.view() == old(self).view(),
                self.queues == old(self).queues,
                self.sccs == old(self).sccs,
            decreases self.back - self.front + 1,
        {
            proof {
                lemma_waiting_front(
                    views_of(self.queues@),
                    self.front as int,
                    self.back as int + 1,
                );
                assert(Seq::<StateId>::empty() + waiting(
                    views_of(self.queues@),
                    self.front as int + 1,
                    self.back as int + 1,
                ) =~= waiting(views_of(self.queues@), self.front as int + 1, self.back as int + 1));
            }
            self.front += 1;
        }
    }
}

impl Queue for SccQueue {
    /// The states that wait, those of a component with a smaller index
    /// first.
    closed spec fn view(&self) -> Seq<StateId> {
        waiting(views_of(self.queues@), self.front as int, self.back as int + 1)
    }

    closed spec fn inv(&self) -> bool {
        self.valid()
    }

    /// A state is taken if it has a component and the queue of that
    /// component takes it.
    closed spec fn accepts(&self, state: StateId) -> bool {
        state < self.sccs@.len() && self.queues@[self.sccs@[state as int] as int].accepts(state)
    }

    /// A state is put into the queue of its component.
    closed spec fn enqueue_spec(&self, state: StateId) -> Seq<StateId> {
        let scc = self.sccs@[state as int] as int;
        let views = views_of(self.queues@).update(scc, self.queues@[scc].enqueue_spec(state));
        if self.front > self.back {
            waiting(views, scc, scc + 1)
        } else if scc > self.back {
            waiting(views, self.front as int, scc + 1)
        } else if scc < self.front {
            waiting(views, scc, self.back as int + 1)
        } else {
            waiting(views, self.front as int, self.back as int + 1)
        }
    }

    /// An update is handed to the queue of the component of the state.
    closed spec fn update_spec(&self, state: StateId) -> Seq<StateId> {
        let scc = self.sccs@[state as int] as int;
        let views = views_of(self.queues@).update(scc, self.queues@[scc].update_spec(state));
        waiting(views, self.front as int, self.back as int + 1)
    }

    fn head(&mut self) -> (r: Option<StateId>) {
        self.settle();
        if self.front > self.back {
            proof {
                lemma_waiting_empty(
                    views_of(self.queues@),
                    self.front as int,
                    self.back as int + 1,
                );
            }
            return None;
        }
        proof {
            lemma_waiting_front(views_of(self.queues@), self.front as int, self.back as int + 1);
        }
        let ghost before = self.queues@;
        let r = self.queues[self.front as usize].head();
        proof {
            assert(views_of(self.queues@) =~= views_of(before));
        }
        r
    }

    fn enqueue(&mut self, state: StateId) {
        let u_state = state as usize;
        let scc = self.sccs[u_state];
        assert(self.sccs@[state as int] < self.queues@.len());
        let ghost all = views_of(self.queues@);
        let ghost views = all.update(scc as int, self.queues@[scc as int].enqueue_spec(state));
        let ghost front = self.front as int;
        let ghost back = self.back as int;
        if self.front > self.back {
            self.front = scc as i32;
            self.back = scc as i32;
        } else if (scc as i32) > self.back {
            self.back = scc as i32;
        } else if (scc as i32) < self.front {
            self.front = scc as i32;
        }
        let ghost old_queues = self.queues@;
        self.queues[scc].enqueue(state);
        proof {
            assert(views_of(self.queues@) =~= views);
            let k = scc as int;
            assert(self.queues@[k].view().len() > 0);
            assert forall|i: int| 0 <= i < self.queues@.len() implies (
            #[trigger] self.queues@[i]).inv() by {
                if i != k {
                    assert(self.queues@[i] == old_queues[i]);
                }
            }
            assert forall|i: int|
                0 <= i < self.queues@.len() && !(self.front <= i <= self.back) implies (
            #[trigger] self.queues@[i]).view().len() == 0 by {
                assert(self.queues@[i] == old_queues[i]);
            }

            if front > back {
                lemma_waiting_update(all, k, k + 1, k, views[k]);
                lemma_waiting_empty(all, k, k + 1);
                lemma_waiting_empty(all, front, back + 1);
            } else if k > back {
                lemma_waiting_update(all, front, k + 1, k, views[k]);
                lemma_waiting_grow_back(all, front, back + 1, k + 1);
            } else if k < front {
                lemma_waiting_update(all, k, back + 1, k, views[k]);
                lemma_waiting_grow_front(all, k, front, back + 1);
            } else {
                lemma_waiting_update(all, front, back + 1, k, views[k]);
            }
        }
    }

    fn dequeue(&mut self) {
        self.settle();
        if self.front > self.back {
            return ;
        }
        let ghost before = views_of(self.queues@);
        let ghost front = self.front as int;
        let ghost back = self.back as int;
        self.queues[self.front as usize].dequeue();
        proof {
            let after = views_of(self.queues@);
            assert(after =~= before.update(front, before[front].drop_first()));
            lemma_waiting_front(before, front, back + 1);
            lemma_waiting_front(after, front, back + 1);
            lemma_waiting_same(before, after, front + 1, back + 1);
            assert((before[front] + waiting(before, front + 1, back + 1)).drop_first()
                =~= before[front].drop_first() + waiting(before, front + 1, back + 1));
        }
    }

    fn update(&mut self, state: StateId) {
        let scc = self.sccs[state as usize];
        let ghost all = views_of(self.queues@);
        let ghost views = all.update(scc as int, self.queues@[scc as int].update_spec(state));
        self.queues[scc].update(state);
        proof {
            assert(views_of(self.queues@) =~= views);
            let k = scc as int;
            let front = self.front as int;
            let back = self.back as int;
            if front <= k <= back {
                lemma_waiting_update(all, front, back + 1, k, views[k]);
            } else {
                lemma_waiting_same(all, views, front, back + 1);
            }
        }
    }

    fn is_empty(&self) -> (b: bool) {
        let mut i = self.front;
        while i <= self.back
            invariant
                self.valid(),
                self.front <= i <= self.back + 1,
                forall|k: int| self.front <= k < i ==> self.queues@[k].view().len() == 0,
            decreases self.back - i + 1,
        {
            if !self.queues[i as usize].is_empty() {
                proof {
                    lemma_waiting_len(
                        views_of(self.queues@),
                        self.front as int,
                        self.back as int + 1,
                        i as int,
                    );
                }
                return false;
            }
            i = i + 1;
        }
        proof {
            lemma_waiting_empty(views_of(self.queues@), self.front as int, self.back as int + 1);
        }
        true
    }

    fn clear(&mut self) {
        let mut i = self.front;
        while i <= self.back
            invariant
                self.front <= i <= self.back + 1,
                self.front == old(self).front,
                self.back == old(self).back,
                self.sccs == old(self).sccs,
                self.queues@.len() == old(self).queues@.len(),
                self.queues@.len() <= i32::MAX,
                0 <= self.front,
                -1 <= self.back < self.queues@.len(),
                forall|k: int| 0 <= k < self.queues@.len() ==> (#[trigger] self.queues@[k]).inv(),
                forall|k: int|
                    0 <= k < self.queues@.len() && !(i <= k <= self.back) ==> (
                    #[trigger] self.queues@[k]).view().len() == 0,
                forall|k: int, state: StateId|
                    0 <= k < self.queues@.len() ==> (#[trigger] self.queues@[k].accepts(state))
                        == old(self).queues@[k].accepts(state),
            decreases self.back - i + 1,
        {
            self.queues[i as usize].clear();
            i = i + 1;
        }
        self.front = 0;
        self.back = -1;
    }

    open spec fn queue_type_spec(&self) -> QueueType {
        QueueType::SccQueue
    }

    fn queue_type(&self) -> (t: QueueType) {
        QueueType::SccQueue
    }
}

/// No state waits in the queues behind `back`, so counting them in changes
/// nothing.
proof fn lemma_waiting_grow_back(views: Seq<Seq<StateId>>, lo: int, hi: int, more: int)
    requires
        0 <= lo <= hi <= more <= views.len(),
        forall|i: int| hi <= i < more ==> views[i].len() == 0,
    ensures
        waiting(views, lo, more) == waiting(views, lo, hi),
    decreases more - hi,
{
    if hi < more {
        lemma_waiting_grow_back(views, lo, hi, more - 1);
        assert(waiting(views, lo, more - 1) + views[more - 1] =~= waiting(views, lo, more - 1));
    }
}

/// No state waits in the queues before `front`, so counting them in changes
/// nothing.
proof fn lemma_waiting_grow_front(views: Seq<Seq<StateId>>, less: int, lo: int, hi: int)
    requires
        0 <= less <= lo <= hi <= views.len(),
        forall|i: int| less <= i < lo ==> views[i].len() == 0,
    ensures
        waiting(views, less, hi) == waiting(views, lo, hi),
    decreases lo - less,
{
    if less < lo {
        if less < hi {
            lemma_waiting_front(views, less, hi);
            assert(views[less] + waiting(views, less + 1, hi) =~= waiting(views, less + 1, hi));
        }
        lemma_waiting_grow_front(views, less + 1, lo, hi);
    }
}

} // verus!
