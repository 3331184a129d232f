//! The idempotency-key store: one record per `(user, key)` pair, used as a
//! mutual-exclusion and memoization primitive. A record is created as a
//! placeholder when a caller first wins the processing right, and mutated
//! exactly once — by that caller — to carry the saved response. Records are
//! never removed, which is what makes a win unrepeatable. The flip side is
//! that a winner who dies before saving leaves its key pending forever;
//! repairing that would take an out-of-band expiry this design does not
//! have, so duplicates of such a key keep seeing the in-flight conflict.

use vstd::prelude::*;
use vstd::pervasive::VecAdditionalExecFns;
use crate::errors::PublishFlowError;
use crate::keys::IdempotencyKey;
use crate::response::RespV;
use crate::response::SavedResponse;

verus! {

/// View of one idempotency record: `response` is `None` while the record is
/// a placeholder (the action is in flight) and `Some` once completed.
#[verifier::ext_equal]
pub struct RecordV {
    pub user_id: u128,
    pub key: Seq<char>,
    pub response: Option<RespV>,
}

/// The record for `(u, k)`: `None` when no record exists, `Some(None)` for a
/// placeholder, `Some(Some(r))` for a completed record.
pub open spec fn spec_lookup(s: Seq<RecordV>, u: u128, k: Seq<char>) -> Option<Option<RespV>>
    decreases s.len(),
{
    if s.len() == 0 {
        None
    } else if s[0].user_id == u && s[0].key == k {
        Some(s[0].response)
    } else {
        spec_lookup(s.drop_first(), u, k)
    }
}

/// A record exists for `(u, k)`: some caller has claimed the key.
pub open spec fn occupied(s: Seq<RecordV>, u: u128, k: Seq<char>) -> bool {
    spec_lookup(s, u, k) is Some
}

/// The record for `(u, k)` is completed and carries response `r`.
pub open spec fn completed_with(s: Seq<RecordV>, u: u128, k: Seq<char>, r: RespV) -> bool {
    spec_lookup(s, u, k) == Some(Some(r))
}

/// A caller attempting admission on store state `s` wins the processing
/// right if and only if no record for the key exists yet.
pub open spec fn admission_wins(s: Seq<RecordV>, u: u128, k: Seq<char>) -> bool {
    spec_lookup(s, u, k) is None
}

/// How the store may move over time, whoever acts on it: claimed keys stay
/// claimed, and a completed record keeps its response forever.
pub open spec fn evolves(a: Seq<RecordV>, b: Seq<RecordV>) -> bool {
    &&& forall|u: u128, k: Seq<char>| #[trigger] occupied(a, u, k) ==> occupied(b, u, k)
    &&& forall|u: u128, k: Seq<char>, r: RespV| #[trigger]
        completed_with(a, u, k, r) ==> completed_with(b, u, k, r)
}

pub proof fn lemma_evolves_trans(a: Seq<RecordV>, b: Seq<RecordV>, c: Seq<RecordV>)
    requires
        evolves(a, b),
        evolves(b, c),
    ensures
        evolves(a, c),
{
}

/// Appending a record changes no existing lookup; a fresh key finds the new
/// record if it matches.
pub proof fn lemma_lookup_push(s: Seq<RecordV>, r: RecordV, u: u128, k: Seq<char>)
    ensures
        spec_lookup(s.push(r), u, k) == (if spec_lookup(s, u, k) is Some {
            spec_lookup(s, u, k)
        } else if r.user_id == u && r.key == k {
            Some(r.response)
        } else {
            None
        }),
    decreases s.len(),
{
    if s.len() == 0 {
        assert(s.push(r).len() == 1);
        assert(s.push(r)[0] == r);
        assert(s.push(r).drop_first() =~= Seq::<RecordV>::empty());
        assert(spec_lookup(s, u, k) is None);
        if r.user_id == u && r.key == k {
            assert(spec_lookup(s.push(r), u, k) == Some(r.response));
        } else {
            assert(spec_lookup(s.push(r).drop_first(), u, k) is None);
            assert(spec_lookup(s.push(r), u, k) is None);
        }
    } else {
        assert(s.push(r)[0] == s[0]);
        assert(s.push(r).drop_first() =~= s.drop_first().push(r));
        lemma_lookup_push(s.drop_first(), r, u, k);
        if s[0].user_id == u && s[0].key == k {
            assert(spec_lookup(s, u, k) == Some(s[0].response));
            assert(spec_lookup(s.push(r), u, k) == Some(s[0].response));
        } else {
            assert(spec_lookup(s, u, k) == spec_lookup(s.drop_first(), u, k));
            assert(spec_lookup(s.push(r), u, k) == spec_lookup(s.drop_first().push(r), u, k));
        }
    }
}

/// If no record matches `(u, k)`, the lookup is empty.
pub proof fn lemma_lookup_no_match(s: Seq<RecordV>, u: u128, k: Seq<char>)
    requires
        forall|j: int|
            0 <= j < s.len() ==> !((#[trigger] s[j]).user_id == u && s[j].key == k),
    ensures
        spec_lookup(s, u, k) is None,
    decreases s.len(),
{
    if s.len() > 0 {
        assert(forall|j: int|
            0 <= j < s.drop_first().len() ==> s.drop_first()[j] == s[j + 1]);
        lemma_lookup_no_match(s.drop_first(), u, k);
    }
}

/// The lookup returns the first matching record.
pub proof fn lemma_lookup_first_match(s: Seq<RecordV>, i: int, u: u128, k: Seq<char>)
    requires
        0 <= i < s.len(),
        s[i].user_id == u && s[i].key == k,
        forall|j: int| 0 <= j < i ==> !((#[trigger] s[j]).user_id == u && s[j].key == k),
    ensures
        spec_lookup(s, u, k) == Some(s[i].response),
    decreases s.len(),
{
    if i > 0 {
        assert(forall|j: int|
            0 <= j < s.drop_first().len() ==> s.drop_first()[j] == s[j + 1]);
        lemma_lookup_first_match(s.drop_first(), i - 1, u, k);
    }
}

/// An empty lookup means no record matches anywhere.
pub proof fn lemma_lookup_none_no_match(s: Seq<RecordV>, u: u128, k: Seq<char>)
    requires
        spec_lookup(s, u, k) is None,
    ensures
        forall|j: int|
            0 <= j < s.len() ==> !((#[trigger] s[j]).user_id == u && s[j].key == k),
    decreases s.len(),
{
    if s.len() > 0 {
        lemma_lookup_none_no_match(s.drop_first(), u, k);
        assert forall|j: int|
            0 <= j < s.len() implies !((#[trigger] s[j]).user_id == u && s[j].key == k) by {
            if j > 0 {
                assert(s.drop_first()[j - 1] == s[j]);
            }
        }
    }
}

/// Replacing the first matching record redirects only that key's lookup.
pub proof fn lemma_lookup_update_other(
    s: Seq<RecordV>,
    i: int,
    r: RecordV,
    u2: u128,
    k2: Seq<char>,
)
    requires
        0 <= i < s.len(),
        !(s[i].user_id == u2 && s[i].key == k2),
        !(r.user_id == u2 && r.key == k2),
    ensures
        spec_lookup(s.update(i, r), u2, k2) == spec_lookup(s, u2, k2),
    decreases s.len(),
{
    if i == 0 {
        assert(s.update(0, r)[0] == r);
        assert(s.update(0, r).drop_first() =~= s.drop_first());
    } else {
        assert(s.update(i, r)[0] == s[0]);
        assert(s.update(i, r).drop_first() =~= s.drop_first().update(i - 1, r));
        lemma_lookup_update_other(s.drop_first(), i - 1, r, u2, k2);
    }
}

/// One idempotency record as stored.
struct Record {
    user_id: u128,
    key: IdempotencyKey,
    response: Option<SavedResponse>,
}

impl Record {
    spec fn v(&self) -> RecordV {
        RecordV {
            user_id: self.user_id,
            key: self.key@,
            response: match self.response {
                Some(ref x) => Some(x@),
                None => None,
            },
        }
    }
}

/// The store of idempotency records. Its view is the sequence of record
/// views, queried through `spec_lookup`.
pub struct KeyStore {
    records: Vec<Record>,
}

impl View for KeyStore {
    type V = Seq<RecordV>;

    closed spec fn view(&self) -> Seq<RecordV> {
        self.records@.map_values(|r: Record| r.v())
    }
}

/// The processing right for one `(user, key)` pair, handed to exactly one
/// caller per key. It stands for the open transaction in which that caller
/// must do its writes; `save_response` consumes it.
pub struct ProcessingToken {
    user_id: u128,
    key: IdempotencyKey,
}

impl View for ProcessingToken {
    type V = (u128, Seq<char>);

    closed spec fn view(&self) -> (u128, Seq<char>) {
        (self.user_id, self.key@)
    }
}

impl ProcessingToken {
    pub fn user_id(&self) -> (u: u128)
        ensures
            u == self@.0,
    {
        self.user_id
    }

    pub fn key(&self) -> (k: &IdempotencyKey)
        ensures
            k@ == self@.1,
    {
        &self.key
    }
}

/// What the admission check tells the caller to do next: run the action
/// inside the freshly opened processing right, or hand back the response
/// saved by the earlier, completed execution.
pub enum NextAction {
    StartProcessing(ProcessingToken),
    ReturnSavedResponse(SavedResponse),
}

impl KeyStore {
    /// An empty store.
    pub fn new() -> (s: KeyStore)
        ensures
            s@ =~= Seq::<RecordV>::empty(),
    {
        KeyStore { records: Vec::new() }
    }

    /// The index of the first record for `(user_id, key)`, if any.
    fn find_index(&self, user_id: u128, key: &IdempotencyKey) -> (r: Option<usize>)
        ensures
            r matches Some(i) ==> i < self@.len() && self@[i as int].user_id == user_id
                && self@[i as int].key == key@ && (forall|j: int|
                0 <= j < i ==> !((#[trigger] self@[j]).user_id == user_id && self@[j].key
                    == key@)),
            r is None ==> forall|j: int|
                0 <= j < self@.len() ==> !((#[trigger] self@[j]).user_id == user_id
                    && self@[j].key == key@),
    {
        let n = self.records.len();
        let mut i: usize = 0;
        while i < n
            invariant
                0 <= i <= n,
                n == self.records@.len(),
                self@.len() == n,
                forall|j: int|
                    0 <= j < i ==> !((#[trigger] self@[j]).user_id == user_id && self@[j].key
                        == key@),
            decreases n - i,
        {
            let rec = &self.records[i];
            if rec.user_id == user_id && rec.key.same_key(key) {
                return Some(i);
            }
            i += 1;
        }
        None
    }

    /// Reads the saved response for `(user_id, key)` outside any
    /// transaction: a copy of the cached response if the record is
    /// completed, nothing otherwise.
    pub fn get_saved_response(&self, user_id: u128, key: &IdempotencyKey) -> (r: Option<
        SavedResponse,
    >)
        ensures
            r matches Some(x) ==> completed_with(self@, user_id, key@, x@),
            r is None ==> !(spec_lookup(self@, user_id, key@) matches Some(Some(_))),
    {
        match self.find_index(user_id, key) {
            Some(i) => {
                proof {
                    lemma_lookup_first_match(self@, i as int, user_id, key@);
                }
                match &self.records[i].response {
                    Some(resp) => {
                        let copy = resp.duplicate();
                        proof {
                            assert(self@[i as int].response == Some(copy@));
                        }
                        Some(copy)
                    },
                    None => None,
                }
            },
            None => {
                proof {
                    lemma_lookup_no_match(self@, user_id, key@);
                }
                None
            },
        }
    }

    /// The admission decision for `(user_id, key)`, taken atomically against
    /// the store — the serialized outcome of the placeholder insert race:
    /// - no record: the caller wins; a placeholder is inserted and the
    ///   caller receives the processing right;
    /// - completed record: the caller must replay the saved response;
    /// - placeholder record: a genuine concurrent duplicate; reported as a
    ///   retryable conflict rather than blocking.
    pub fn try_processing(&mut self, user_id: u128, key: &IdempotencyKey) -> (r: Result<
        NextAction,
        PublishFlowError,
    >)
        ensures
            admission_wins(old(self)@, user_id, key@) ==> (r matches Ok(
                NextAction::StartProcessing(t),
            ) && t@ == (user_id, key@) && final(self)@ =~= old(self)@.push(
                RecordV { user_id, key: key@, response: None },
            )),
            spec_lookup(old(self)@, user_id, key@) matches Some(Some(resp)) ==> (r matches Ok(
                NextAction::ReturnSavedResponse(x),
            ) && x@ == resp),
            spec_lookup(old(self)@, user_id, key@) == Some(Option::<RespV>::None) ==> r
                == Err::<NextAction, PublishFlowError>(PublishFlowError::ConcurrencyConflict),
            !admission_wins(old(self)@, user_id, key@) ==> final(self)@ == old(self)@,
            evolves(old(self)@, final(self)@),
    {
        match self.find_index(user_id, key) {
            Some(i) => {
                proof {
                    lemma_lookup_first_match(self@, i as int, user_id, key@);
                }
                match &self.records[i].response {
                    Some(resp) => {
                        let copy = resp.duplicate();
                        proof {
                            assert(self@[i as int].response == Some(copy@));
                        }
                        Ok(NextAction::ReturnSavedResponse(copy))
                    },
                    None => Err(PublishFlowError::ConcurrencyConflict),
                }
            },
            None => {
                proof {
                    lemma_lookup_no_match(self@, user_id, key@);
                }
                let ghost pre = self@;
                let placeholder = Record {
                    user_id,
                    key: key.duplicate(),
                    response: None,
                };
                let ghost pv = placeholder.v();
                self.records.push(placeholder);
                proof {
                    assert(self@ =~= pre.push(pv));
                    assert(pv == RecordV { user_id, key: key@, response: None::<RespV> });
                    assert forall|u2: u128, k2: Seq<char>| #[trigger]
                        occupied(pre, u2, k2) implies occupied(self@, u2, k2) by {
                        lemma_lookup_push(pre, pv, u2, k2);
                    }
                    assert forall|u2: u128, k2: Seq<char>, r2: RespV| #[trigger]
                        completed_with(pre, u2, k2, r2) implies completed_with(
                        self@,
                        u2,
                        k2,
                        r2,
                    ) by {
                        lemma_lookup_push(pre, pv, u2, k2);
                    }
                }
                Ok(NextAction::StartProcessing(ProcessingToken { user_id, key: key.duplicate() }))
            },
        }
    }

    /// Completes the record the token owns: fills in the saved response —
    /// the one mutation the record ever sees — and hands back a copy for
    /// the caller to return over the wire. Consuming the token, together
    /// with the placeholder requirement, keeps anyone else from ever
    /// updating the record.
    pub fn save_response(&mut self, token: ProcessingToken, response: &SavedResponse) -> (r:
        SavedResponse)
        requires
            spec_lookup(old(self)@, token@.0, token@.1) == Some(Option::<RespV>::None),
        ensures
            completed_with(final(self)@, token@.0, token@.1, response@),
            exists|i: int|
                0 <= i < old(self)@.len() && (#[trigger] old(self)@[i]).user_id == token@.0
                    && old(self)@[i].key == token@.1 && final(self)@ =~= old(self)@.update(
                    i,
                    RecordV { user_id: token@.0, key: token@.1, response: Some(response@) },
                ),
            forall|u2: u128, k2: Seq<char>|
                !(u2 == token@.0 && k2 == token@.1) ==> #[trigger] spec_lookup(final(self)@, u2, k2)
                    == spec_lookup(old(self)@, u2, k2),
            final(self)@.len() == old(self)@.len(),
            evolves(old(self)@, final(self)@),
            r@ == response@,
    {
        let user_id = token.user_id;
        let key = token.key;
        match self.find_index(user_id, &key) {
            Some(i) => {
                proof {
                    lemma_lookup_first_match(self@, i as int, user_id, key@);
                }
                let ghost pre = self@;
                let saved = response.duplicate();
                let updated = Record { user_id, key, response: Some(saved) };
                let ghost uv = updated.v();
                self.records.set(i, updated);
                proof {
                    assert(self@ =~= pre.update(i as int, uv));
                    lemma_lookup_first_match(self@, i as int, user_id, key@);
                    assert(completed_with(self@, user_id, key@, response@));
                    assert(uv == RecordV {
                        user_id,
                        key: key@,
                        response: Some(response@),
                    });
                    assert((i as int) < pre.len() && pre[i as int].user_id == user_id
                        && pre[i as int].key == key@ && self@ =~= pre.update(
                        i as int,
                        RecordV { user_id, key: key@, response: Some(response@) },
                    ));
                    assert forall|u2: u128, k2: Seq<char>|
                        !(u2 == user_id && k2 == key@) implies #[trigger] spec_lookup(
                        self@,
                        u2,
                        k2,
                    ) == spec_lookup(pre, u2, k2) by {
                        lemma_lookup_update_other(pre, i as int, uv, u2, k2);
                    }
                    assert forall|u2: u128, k2: Seq<char>| #[trigger]
                        occupied(pre, u2, k2) implies occupied(self@, u2, k2) by {
                        if !(u2 == user_id && k2 == key@) {
                            lemma_lookup_update_other(pre, i as int, uv, u2, k2);
                        }
                    }
                    assert forall|u2: u128, k2: Seq<char>, r2: RespV| #[trigger]
                        completed_with(pre, u2, k2, r2) implies completed_with(
                        self@,
                        u2,
                        k2,
                        r2,
                    ) by {
                        if !(u2 == user_id && k2 == key@) {
                            lemma_lookup_update_other(pre, i as int, uv, u2, k2);
                        }
                    }
                }
                let r = response.duplicate();
                proof {
                    assert(r@ =~= response@);
                }
                r
            },
            None => {
                proof {
                    lemma_lookup_no_match(self@, user_id, key@);
                    assert(false);
                }
                response.duplicate()
            },
        }
    }
}

/// Concurrent duplicate submission admits exactly one winner per key: a win
/// inserts the key's record, records are never removed however the store
/// moves on, and winning requires the key to be absent — so after one
/// request has won, every later admission attempt for the same key replays
/// a saved response or reports the in-flight conflict, and never wins.
pub proof fn lemma_single_winner(
    post1: Seq<RecordV>,
    pre2: Seq<RecordV>,
    u: u128,
    k: Seq<char>,
)
    requires
        occupied(post1, u, k),
        evolves(post1, pre2),
    ensures
        !admission_wins(pre2, u, k),
{
}

} // verus!
