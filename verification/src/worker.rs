//! The delivery worker: one loop iteration dequeues at most one task under
//! an exclusive row lock, attempts the external delivery, and then either
//! deletes the row (success) or rolls back (failure or crash), leaving the
//! row for a later attempt. The caller of the library performs the actual
//! send between the two phases and reports its outcome; a worker that dies
//! in between is indistinguishable from a failed delivery, because the
//! store rolls its transaction back either way.

use vstd::prelude::*;
use crate::errors::DeliveryError;
use crate::outbox::OutboxQueue;
use crate::outbox::RowV;
use crate::outbox::dequeuable;
use crate::outbox::has_lock_on;
use crate::outbox::holds_lock;
use crate::outbox::tasks;

verus! {

/// View of a worker: its tag and the task it currently holds.
#[verifier::ext_equal]
pub struct WorkerV {
    pub id: u64,
    pub current: Option<(u128, Seq<char>)>,
}

/// The worker's handle on the queue is truthful: idle workers hold no row
/// lock, and a worker mid-delivery holds exactly its task's row.
pub open spec fn coupled(w: WorkerV, q: Seq<RowV>) -> bool {
    match w.current {
        None => !holds_lock(q, w.id),
        Some(t) => has_lock_on(q, w.id, t),
    }
}

/// One competing consumer of the outbox.
pub struct DeliveryWorker {
    id: u64,
    current: Option<(u128, String)>,
}

impl View for DeliveryWorker {
    type V = WorkerV;

    closed spec fn view(&self) -> WorkerV {
        WorkerV {
            id: self.id,
            current: match self.current {
                Some((issue, ref r)) => Some((issue, r@)),
                None => None,
            },
        }
    }
}

impl DeliveryWorker {
    /// A fresh, idle worker with tag `id`. Run one worker per tag: the tag
    /// stands for the worker's open transaction at the store.
    pub fn new(id: u64) -> (w: DeliveryWorker)
        ensures
            w@ == (WorkerV { id, current: None::<(u128, Seq<char>)> }),
    {
        DeliveryWorker { id, current: None }
    }

    /// The worker's tag.
    pub fn id(&self) -> (i: u64)
        ensures
            i == self@.id,
    {
        self.id
    }

    /// Starts one iteration: locks and takes at most one task. Returns the
    /// task the caller must now try to deliver, or nothing — queue drained
    /// or every row already claimed — in which case the caller should back
    /// off and come back. Tasks held by other workers are untouched.
    pub fn begin_iteration(&mut self, q: &mut OutboxQueue) -> (t: Option<(u128, String)>)
        requires
            old(q).wf(),
            old(self)@.current is None,
            coupled(old(self)@, old(q)@),
        ensures
            final(q).wf(),
            final(self)@.id == old(self)@.id,
            coupled(final(self)@, final(q)@),
            tasks(final(q)@) == tasks(old(q)@),
            t matches Some((issue, r)) ==> final(self)@.current == Some((issue, r@))
                && tasks(old(q)@).count((issue, r@)) >= 1,
            t is None ==> final(self)@.current is None && final(q)@ == old(q)@ && (forall|i: int|
                0 <= i < old(q)@.len() ==> (#[trigger] old(q)@[i]).lock is Some),
            forall|w2: u64, tk: (u128, Seq<char>)|
                w2 != old(self)@.id ==> (#[trigger] has_lock_on(final(q)@, w2, tk)
                    <==> has_lock_on(old(q)@, w2, tk)),
    {
        let ghost qpre = q@;
        match q.dequeue_one(self.id) {
            Some((issue, r)) => {
                let held = r.clone();
                self.current = Some((issue, held));
                proof {
                    let i = choose|i: int|
                        0 <= i < qpre.len() && (#[trigger] qpre[i]).lock is None
                            && qpre[i].issue_id == issue && qpre[i].recipient == r@ && q@
                            =~= qpre.update(
                            i,
                            RowV { issue_id: issue, recipient: r@, lock: Some(self@.id) },
                        );
                    assert forall|w2: u64, tk: (u128, Seq<char>)|
                        w2 != self@.id implies (#[trigger] has_lock_on(q@, w2, tk)
                        <==> has_lock_on(qpre, w2, tk)) by {
                        if has_lock_on(qpre, w2, tk) {
                            let j = choose|j: int|
                                0 <= j < qpre.len() && (#[trigger] qpre[j]).lock == Some(w2)
                                    && qpre[j].issue_id == tk.0 && qpre[j].recipient == tk.1;
                            assert(q@[j] == qpre[j]);
                        }
                        if has_lock_on(q@, w2, tk) {
                            let j = choose|j: int|
                                0 <= j < q@.len() && (#[trigger] q@[j]).lock == Some(w2)
                                    && q@[j].issue_id == tk.0 && q@[j].recipient == tk.1;
                            assert(j != i);
                            assert(q@[j] == qpre[j]);
                        }
                    }
                }
                Some((issue, r))
            },
            None => None,
        }
    }

    /// Ends the iteration the caller began with the transport's outcome:
    /// on a successful delivery the held row is deleted and the deletion
    /// committed — the task is gone for good; on a delivery failure (or a
    /// crash, which the store treats the same way) the transaction is
    /// rolled back and the task is dequeuable again, by this worker or
    /// any other.
    pub fn finish_iteration(&mut self, q: &mut OutboxQueue, outcome: Result<(), DeliveryError>)
        requires
            old(q).wf(),
            old(self)@.current is Some,
            coupled(old(self)@, old(q)@),
        ensures
            final(q).wf(),
            final(self)@.id == old(self)@.id,
            final(self)@.current is None,
            coupled(final(self)@, final(q)@),
            old(self)@.current matches Some(t) ==> {
                if outcome is Ok {
                    tasks(final(q)@) == tasks(old(q)@).remove(t)
                } else {
                    tasks(final(q)@) == tasks(old(q)@) && dequeuable(final(q)@, t)
                }
            },
            forall|w2: u64, tk: (u128, Seq<char>)|
                w2 != old(self)@.id ==> (#[trigger] has_lock_on(final(q)@, w2, tk)
                    <==> has_lock_on(old(q)@, w2, tk)),
            outcome is Err ==> forall|tk: (u128, Seq<char>)| #[trigger]
                dequeuable(old(q)@, tk) ==> dequeuable(final(q)@, tk),
    {
        let (issue, recipient) = match &self.current {
            Some((issue, r)) => (*issue, r.clone()),
            None => {
                proof {
                    assert(false);
                }
                (0, String::new())
            },
        };
        self.current = None;
        if outcome.is_ok() {
            q.delete_and_commit(self.id, issue, &recipient);
        } else {
            proof {
                let h = choose|h: int|
                    0 <= h < q@.len() && (#[trigger] q@[h]).lock == Some(self@.id)
                        && q@[h].issue_id == issue && q@[h].recipient == recipient@;
            }
            q.rollback(self.id);
        }
    }
}

} // verus!
