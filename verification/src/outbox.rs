//! The outbox: a durable multiset of delivery tasks, one row per
//! `(issue, recipient)`, with exclusive dequeue. Rows are enqueued in bulk
//! inside the transaction that proved the publish request new, locked one
//! at a time by competing workers — a locked row is invisible to every
//! other dequeuer — and removed only when a delivery has succeeded.
//! Duplicates are permitted: each row is an independent unit of work, and
//! row selection order is deliberately unspecified.

use vstd::prelude::*;
use vstd::multiset::Multiset;
use vstd::pervasive::VecAdditionalExecFns;

verus! {

broadcast use vstd::seq_lib::group_to_multiset_ensures;

/// View of one outbox row: the task, and the worker whose open transaction
/// currently holds the row lock, if any.
#[verifier::ext_equal]
pub struct RowV {
    pub issue_id: u128,
    pub recipient: Seq<char>,
    pub lock: Option<u64>,
}

/// The multiset of queued tasks, locks disregarded: what remains to be
/// delivered.
pub open spec fn tasks(s: Seq<RowV>) -> Multiset<(u128, Seq<char>)> {
    s.map_values(|r: RowV| (r.issue_id, r.recipient)).to_multiset()
}

/// Worker `w` holds a row lock somewhere in the queue.
pub open spec fn holds_lock(s: Seq<RowV>, w: u64) -> bool {
    exists|i: int| 0 <= i < s.len() && (#[trigger] s[i]).lock == Some(w)
}

/// Worker `w` holds a lock on a row carrying task `t`.
pub open spec fn has_lock_on(s: Seq<RowV>, w: u64, t: (u128, Seq<char>)) -> bool {
    exists|i: int|
        0 <= i < s.len() && (#[trigger] s[i]).lock == Some(w) && s[i].issue_id == t.0
            && s[i].recipient == t.1
}

/// Task `t` sits in some unlocked row, so a dequeue may return it.
pub open spec fn dequeuable(s: Seq<RowV>, t: (u128, Seq<char>)) -> bool {
    exists|i: int|
        0 <= i < s.len() && (#[trigger] s[i]).lock is None && s[i].issue_id == t.0
            && s[i].recipient == t.1
}

/// Each lock is held by at most one row: no worker transaction ever holds
/// two rows at once in this design, and the storage engine gives a row at
/// most one lock holder.
pub open spec fn wf_locks(s: Seq<RowV>) -> bool {
    forall|i: int, j: int|
        0 <= i < j < s.len() && (#[trigger] s[i]).lock is Some ==> s[i].lock != (
        #[trigger] s[j]).lock
}

/// A worker holds at most one row at a time: two rows locked with the same
/// worker tag are the same row.
pub proof fn lemma_at_most_one_holder(s: Seq<RowV>, i: int, j: int, w: u64)
    requires
        wf_locks(s),
        0 <= i < s.len(),
        0 <= j < s.len(),
        s[i].lock == Some(w),
        s[j].lock == Some(w),
    ensures
        i == j,
{
}

/// A task with no row left in the queue can never be handed out again: no
/// unlocked row offers it and no worker holds it. Together with the
/// contract of `delete_and_commit` — which removes exactly one row — this
/// is why a task whose single row was committed is delivered exactly once.
pub proof fn lemma_no_redelivery(s: Seq<RowV>, t: (u128, Seq<char>))
    requires
        tasks(s).count(t) == 0,
    ensures
        !dequeuable(s, t),
        forall|w: u64| !has_lock_on(s, w, t),
{
    let mapped = s.map_values(|r: RowV| (r.issue_id, r.recipient));
    assert(!mapped.contains(t));
    if dequeuable(s, t) {
        let i = choose|i: int|
            0 <= i < s.len() && (#[trigger] s[i]).lock is None && s[i].issue_id == t.0
                && s[i].recipient == t.1;
        assert(mapped[i] == t);
        assert(mapped.contains(t));
    }
    assert forall|w: u64| !(#[trigger] has_lock_on(s, w, t)) by {
        if has_lock_on(s, w, t) {
            let i = choose|i: int|
                0 <= i < s.len() && (#[trigger] s[i]).lock == Some(w) && s[i].issue_id == t.0
                    && s[i].recipient == t.1;
            assert(mapped[i] == t);
            assert(mapped.contains(t));
        }
    }
}

/// No task is delivered twice: a completed delivery removes its row and
/// is the only way a row leaves, so once the queue's single row for `t`
/// has been delivered and deleted, no worker holds `t` and none can
/// receive it again.
pub proof fn lemma_delivered_exactly_once(q0: Seq<RowV>, q1: Seq<RowV>, t: (u128, Seq<char>))
    requires
        tasks(q0).count(t) == 1,
        tasks(q1) == tasks(q0).remove(t),
    ensures
        tasks(q1).count(t) == 0,
        !dequeuable(q1, t),
        forall|w: u64| !has_lock_on(q1, w, t),
{
    lemma_no_redelivery(q1, t);
}

/// Crash recovery: a rolled-back task sits in an unlocked row, and
/// `dequeue_one` comes back empty only when every row is locked — so a
/// queue holding a recovered task always has a row for the next worker,
/// whichever worker that is.
pub proof fn lemma_recovered_task_available(s: Seq<RowV>, t: (u128, Seq<char>))
    requires
        dequeuable(s, t),
    ensures
        exists|i: int| 0 <= i < s.len() && (#[trigger] s[i]).lock is None,
{
    let i = choose|i: int|
        0 <= i < s.len() && (#[trigger] s[i]).lock is None && s[i].issue_id == t.0
            && s[i].recipient == t.1;
    assert(0 <= i < s.len() && s[i].lock is None);
}

/// One outbox row as stored.
struct OutboxRow {
    issue_id: u128,
    recipient: String,
    lock: Option<u64>,
}

impl OutboxRow {
    spec fn v(&self) -> RowV {
        RowV { issue_id: self.issue_id, recipient: self.recipient@, lock: self.lock }
    }
}

/// The outbox table. Its view is the sequence of row views.
pub struct OutboxQueue {
    rows: Vec<OutboxRow>,
}

impl View for OutboxQueue {
    type V = Seq<RowV>;

    closed spec fn view(&self) -> Seq<RowV> {
        self.rows@.map_values(|r: OutboxRow| r.v())
    }
}

impl OutboxQueue {
    /// Locks stay exclusive. Established by `new` and preserved by every
    /// operation; callers carry it between calls.
    pub open spec fn wf(self) -> bool {
        wf_locks(self@)
    }

    /// An empty queue.
    pub fn new() -> (q: OutboxQueue)
        ensures
            q@ =~= Seq::<RowV>::empty(),
            q.wf(),
    {
        OutboxQueue { rows: Vec::new() }
    }

    /// How many rows are queued, locked or not.
    pub fn len(&self) -> (n: usize)
        ensures
            n == self@.len(),
    {
        self.rows.len()
    }

    /// Inserts one unlocked row per recipient, atomically with whatever the
    /// caller's transaction proved — the caller runs this while holding the
    /// processing right that made the request new.
    pub fn enqueue_many(&mut self, issue_id: u128, recipients: &Vec<String>)
        requires
            old(self).wf(),
        ensures
            final(self).wf(),
            final(self)@ =~= old(self)@ + Seq::new(
                recipients@.len(),
                |i: int| RowV { issue_id, recipient: recipients@[i]@, lock: None },
            ),
    {
        let n = recipients.len();
        let mut i: usize = 0;
        while i < n
            invariant
                0 <= i <= n,
                n == recipients@.len(),
                wf_locks(self@),
                self@ =~= old(self)@ + Seq::new(
                    i as nat,
                    |j: int| RowV { issue_id, recipient: recipients@[j]@, lock: None },
                ),
            decreases n - i,
        {
            let ghost pre = self@;
            let recipient = recipients[i].clone();
            let row = OutboxRow { issue_id, recipient, lock: None };
            let ghost rv = row.v();
            self.rows.push(row);
            proof {
                assert(self@ =~= pre.push(rv));
                assert(rv.lock is None);
                assert(self@ =~= old(self)@ + Seq::new(
                    (i + 1) as nat,
                    |j: int| RowV { issue_id, recipient: recipients@[j]@, lock: None },
                ));
            }
            i += 1;
        }
    }

    /// Selects at most one arbitrary unlocked row, locks it for `worker`,
    /// and returns its task — the serialized effect of a skip-locked,
    /// limit-one select. Returns nothing exactly when every row is locked
    /// (in particular when the queue is empty). Which unlocked row comes
    /// back is unspecified; callers must not rely on any order.
    pub fn dequeue_one(&mut self, worker: u64) -> (r: Option<(u128, String)>)
        requires
            old(self).wf(),
            !holds_lock(old(self)@, worker),
        ensures
            final(self).wf(),
            tasks(final(self)@) == tasks(old(self)@),
            final(self)@.len() == old(self)@.len(),
            r is None ==> final(self)@ == old(self)@ && (forall|i: int|
                0 <= i < old(self)@.len() ==> (#[trigger] old(self)@[i]).lock is Some),
            r matches Some((issue, rcpt)) ==> exists|i: int|
                0 <= i < old(self)@.len() && (#[trigger] old(self)@[i]).lock is None
                    && old(self)@[i].issue_id == issue && old(self)@[i].recipient == rcpt@
                    && final(self)@ =~= old(self)@.update(
                    i,
                    RowV { issue_id: issue, recipient: rcpt@, lock: Some(worker) },
                ),
            r matches Some((issue, rcpt)) ==> has_lock_on(final(self)@, worker, (issue, rcpt@))
                && tasks(old(self)@).count((issue, rcpt@)) >= 1,
            // rows already locked — other workers' held rows — are untouched
            forall|i: int|
                0 <= i < old(self)@.len() && (#[trigger] old(self)@[i]).lock is Some
                    ==> final(self)@[i] == old(self)@[i],
    {
        let n = self.rows.len();
        let mut i: usize = 0;
        while i < n
            invariant
                0 <= i <= n,
                n == self@.len(),
                self@ == old(self)@,
                wf_locks(self@),
                !holds_lock(self@, worker),
                forall|j: int| 0 <= j < i ==> (#[trigger] self@[j]).lock is Some,
            decreases n - i,
        {
            if self.rows[i].lock.is_none() {
                let ghost pre = self@;
                let issue_id = self.rows[i].issue_id;
                let recipient = self.rows[i].recipient.clone();
                let returned = self.rows[i].recipient.clone();
                let row = OutboxRow { issue_id, recipient, lock: Some(worker) };
                let ghost rv = row.v();
                self.rows.set(i, row);
                proof {
                    assert(self@ =~= pre.update(i as int, rv));
                    assert(rv == RowV {
                        issue_id,
                        recipient: returned@,
                        lock: Some(worker),
                    });
                    // locks stay exclusive: the new tag was held by nobody
                    assert forall|a: int, b: int|
                        0 <= a < b < self@.len() && (#[trigger] self@[a]).lock is Some implies
                        self@[a].lock != (#[trigger] self@[b]).lock by {
                        if a != i as int && b != i as int {
                            assert(self@[a] == pre[a] && self@[b] == pre[b]);
                        }
                    }
                    // the task multiset is untouched: same tasks, new lock
                    let m0 = pre.map_values(|r: RowV| (r.issue_id, r.recipient));
                    let m1 = self@.map_values(|r: RowV| (r.issue_id, r.recipient));
                    assert(m1 =~= m0);
                    // the returned task is a queued task
                    assert(m0[i as int] == (issue_id, returned@));
                    assert(m0.contains((issue_id, returned@)));
                    assert(has_lock_on(self@, worker, (issue_id, returned@)));
                }
                return Some((issue_id, returned));
            }
            i += 1;
        }
        None
    }

    /// Deletes the row `worker` holds — the only way a task ever leaves the
    /// queue — and commits, releasing the lock. The caller names the task
    /// it delivered; it must be the one on the held row.
    pub fn delete_and_commit(&mut self, worker: u64, issue_id: u128, recipient: &String)
        requires
            old(self).wf(),
            has_lock_on(old(self)@, worker, (issue_id, recipient@)),
        ensures
            final(self).wf(),
            tasks(final(self)@) == tasks(old(self)@).remove((issue_id, recipient@)),
            final(self)@.len() == old(self)@.len() - 1,
            !holds_lock(final(self)@, worker),
            forall|w2: u64, t: (u128, Seq<char>)|
                w2 != worker ==> (#[trigger] has_lock_on(final(self)@, w2, t) <==> has_lock_on(
                    old(self)@,
                    w2,
                    t,
                )),
            forall|t: (u128, Seq<char>)| #[trigger]
                dequeuable(old(self)@, t) ==> dequeuable(final(self)@, t),
    {
        let n = self.rows.len();
        let mut i: usize = 0;
        while i < n
            invariant
                0 <= i <= n,
                n == self@.len(),
                wf_locks(self@),
                self@ == old(self)@,
                has_lock_on(self@, worker, (issue_id, recipient@)),
                forall|j: int| 0 <= j < i ==> (#[trigger] self@[j]).lock != Some(worker),
            decreases n - i,
        {
            let held = match &self.rows[i].lock {
                Some(w) => *w == worker,
                None => false,
            };
            if held {
                let ghost pre = self@;
                proof {
                    let h = choose|h: int|
                        0 <= h < pre.len() && (#[trigger] pre[h]).lock == Some(worker)
                            && pre[h].issue_id == issue_id && pre[h].recipient == recipient@;
                    lemma_at_most_one_holder(pre, h, i as int, worker);
                    assert(pre[i as int].issue_id == issue_id);
                    assert(pre[i as int].recipient == recipient@);
                }
                self.rows.remove(i);
                proof {
                    assert(self@ =~= pre.remove(i as int));
                    let m0 = pre.map_values(|r: RowV| (r.issue_id, r.recipient));
                    let m1 = self@.map_values(|r: RowV| (r.issue_id, r.recipient));
                    assert(m1 =~= m0.remove(i as int));
                    assert(m0[i as int] == (issue_id, recipient@));
                    assert(m0.remove(i as int).to_multiset() =~= m0.to_multiset().remove(
                        m0[i as int],
                    ));
                    assert(tasks(self@) =~= tasks(pre).remove((issue_id, recipient@)));
                    // locks stay exclusive after the removal
                    assert forall|a: int, b: int|
                        0 <= a < b < self@.len() && (#[trigger] self@[a]).lock is Some implies
                        self@[a].lock != (#[trigger] self@[b]).lock by {
                        let a0 = if a < i as int { a } else { a + 1 };
                        let b0 = if b < i as int { b } else { b + 1 };
                        assert(self@[a] == pre[a0] && self@[b] == pre[b0]);
                    }
                    // nobody holds the worker's tag any more
                    assert forall|j: int|
                        0 <= j < self@.len() implies (#[trigger] self@[j]).lock != Some(
                        worker,
                    ) by {
                        let j0 = if j < i as int { j } else { j + 1 };
                        assert(self@[j] == pre[j0]);
                        if j0 != i as int && pre[j0].lock == Some(worker) {
                            lemma_at_most_one_holder(pre, j0, i as int, worker);
                        }
                    }
                    // other workers' held rows and unlocked rows survive
                    assert forall|w2: u64, t: (u128, Seq<char>)|
                        w2 != worker implies (#[trigger] has_lock_on(self@, w2, t)
                        <==> has_lock_on(pre, w2, t)) by {
                        if has_lock_on(pre, w2, t) {
                            let j0 = choose|j0: int|
                                0 <= j0 < pre.len() && (#[trigger] pre[j0]).lock == Some(w2)
                                    && pre[j0].issue_id == t.0 && pre[j0].recipient == t.1;
                            let j = if j0 < i as int { j0 } else { j0 - 1 };
                            assert(self@[j] == pre[j0]);
                        }
                        if has_lock_on(self@, w2, t) {
                            let j = choose|j: int|
                                0 <= j < self@.len() && (#[trigger] self@[j]).lock == Some(w2)
                                    && self@[j].issue_id == t.0 && self@[j].recipient == t.1;
                            let j0 = if j < i as int { j } else { j + 1 };
                            assert(self@[j] == pre[j0]);
                        }
                    }
                    assert forall|t: (u128, Seq<char>)| #[trigger]
                        dequeuable(pre, t) implies dequeuable(self@, t) by {
                        let j0 = choose|j0: int|
                            0 <= j0 < pre.len() && (#[trigger] pre[j0]).lock is None
                                && pre[j0].issue_id == t.0 && pre[j0].recipient == t.1;
                        let j = if j0 < i as int { j0 } else { j0 - 1 };
                        assert(self@[j] == pre[j0]);
                    }
                }
                return ;
            }
            i += 1;
        }
        proof {
            let h = choose|h: int|
                0 <= h < self@.len() && (#[trigger] self@[h]).lock == Some(worker)
                    && self@[h].issue_id == issue_id && self@[h].recipient == recipient@;
            assert(false);
        }
    }

    /// Releases `worker`'s lock without deleting: what happens when a
    /// delivery fails and the transaction is rolled back, and equally what
    /// the storage engine does by itself when a worker crashes mid-flight.
    /// The row stays queued and becomes dequeuable again.
    pub fn rollback(&mut self, worker: u64)
        requires
            old(self).wf(),
            holds_lock(old(self)@, worker),
        ensures
            final(self).wf(),
            tasks(final(self)@) == tasks(old(self)@),
            final(self)@.len() == old(self)@.len(),
            !holds_lock(final(self)@, worker),
            forall|t: (u128, Seq<char>)| #[trigger]
                has_lock_on(old(self)@, worker, t) ==> dequeuable(final(self)@, t),
            forall|w2: u64, t: (u128, Seq<char>)|
                w2 != worker ==> (#[trigger] has_lock_on(final(self)@, w2, t) <==> has_lock_on(
                    old(self)@,
                    w2,
                    t,
                )),
            forall|t: (u128, Seq<char>)| #[trigger]
                dequeuable(old(self)@, t) ==> dequeuable(final(self)@, t),
    {
        let n = self.rows.len();
        let mut i: usize = 0;
        while i < n
            invariant
                0 <= i <= n,
                n == self@.len(),
                wf_locks(self@),
                self@ == old(self)@,
                holds_lock(self@, worker),
                forall|j: int| 0 <= j < i ==> (#[trigger] self@[j]).lock != Some(worker),
            decreases n - i,
        {
            let held = match &self.rows[i].lock {
                Some(w) => *w == worker,
                None => false,
            };
            if held {
                let ghost pre = self@;
                let issue_id = self.rows[i].issue_id;
                let recipient = self.rows[i].recipient.clone();
                let row = OutboxRow { issue_id, recipient, lock: None };
                let ghost rv = row.v();
                self.rows.set(i, row);
                proof {
                    assert(self@ =~= pre.update(i as int, rv));
                    assert(rv == RowV {
                        issue_id: pre[i as int].issue_id,
                        recipient: pre[i as int].recipient,
                        lock: None,
                    });
                    let m0 = pre.map_values(|r: RowV| (r.issue_id, r.recipient));
                    let m1 = self@.map_values(|r: RowV| (r.issue_id, r.recipient));
                    assert(m1 =~= m0);
                    assert forall|a: int, b: int|
                        0 <= a < b < self@.len() && (#[trigger] self@[a]).lock is Some implies
                        self@[a].lock != (#[trigger] self@[b]).lock by {
                        if a != i as int && b != i as int {
                            assert(self@[a] == pre[a] && self@[b] == pre[b]);
                        }
                    }
                    assert forall|j: int|
                        0 <= j < self@.len() implies (#[trigger] self@[j]).lock != Some(
                        worker,
                    ) by {
                        if j != i as int && pre[j].lock == Some(worker) {
                            lemma_at_most_one_holder(pre, j, i as int, worker);
                        }
                    }
                    assert forall|t: (u128, Seq<char>)| #[trigger]
                        has_lock_on(pre, worker, t) implies dequeuable(self@, t) by {
                        let j = choose|j: int|
                            0 <= j < pre.len() && (#[trigger] pre[j]).lock == Some(worker)
                                && pre[j].issue_id == t.0 && pre[j].recipient == t.1;
                        lemma_at_most_one_holder(pre, j, i as int, worker);
                        assert(self@[i as int].lock is None);
                    }
                    assert forall|w2: u64, t: (u128, Seq<char>)|
                        w2 != worker implies (#[trigger] has_lock_on(self@, w2, t)
                        <==> has_lock_on(pre, w2, t)) by {
                        if has_lock_on(pre, w2, t) {
                            let j = choose|j: int|
                                0 <= j < pre.len() && (#[trigger] pre[j]).lock == Some(w2)
                                    && pre[j].issue_id == t.0 && pre[j].recipient == t.1;
                            assert(self@[j] == pre[j]);
                        }
                        if has_lock_on(self@, w2, t) {
                            let j = choose|j: int|
                                0 <= j < self@.len() && (#[trigger] self@[j]).lock == Some(w2)
                                    && self@[j].issue_id == t.0 && self@[j].recipient == t.1;
                            assert(self@[j] == pre[j]);
                        }
                    }
                    assert forall|t: (u128, Seq<char>)| #[trigger]
                        dequeuable(pre, t) implies dequeuable(self@, t) by {
                        let j = choose|j: int|
                            0 <= j < pre.len() && (#[trigger] pre[j]).lock is None
                                && pre[j].issue_id == t.0 && pre[j].recipient == t.1;
                        if j != i as int {
                            assert(self@[j] == pre[j]);
                        }
                    }
                }
                return ;
            }
            i += 1;
        }
        proof {
            let h = choose|h: int|
                0 <= h < self@.len() && (#[trigger] self@[h]).lock == Some(worker);
            assert(false);
        }
    }
}

} // verus!
