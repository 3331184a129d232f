//! The publish flow: admission through the idempotency store, the domain
//! work — enqueueing one outbox row per confirmed recipient — and the
//! saved-response commit, in that order. A replayed request gets back the
//! first execution's response byte for byte and causes no new side effect.

use vstd::prelude::*;
use crate::errors::PublishFlowError;
use crate::keys::IdempotencyKey;
use crate::keys::spec_key_rejection;
use crate::keys::spec_key_valid;
use crate::outbox::OutboxQueue;
use crate::outbox::RowV;
use crate::response::RespV;
use crate::response::SavedResponse;
use crate::response::spec_see_other;
use crate::store::KeyStore;
use crate::store::NextAction;
use crate::store::RecordV;
use crate::store::evolves;
use crate::store::spec_lookup;
use crate::store::lemma_lookup_push;
use crate::store::lemma_lookup_none_no_match;

verus! {

/// A newsletter issue's body in both shapes it is sent in.
pub struct Content {
    pub html: String,
    pub text: String,
}

/// Where a successful publish redirects the client.
pub open spec fn spec_publish_location() -> Seq<u8> {
    vstd::utf8::encode_utf8("/admin/newsletters"@)
}

/// The response a first successful publish saves and returns: a redirect
/// back to the newsletter form.
pub open spec fn publish_response() -> RespV {
    spec_see_other(spec_publish_location())
}

/// The outbox rows a publish enqueues: one unlocked row per recipient.
pub open spec fn publish_rows(issue_id: u128, recipients: Seq<Seq<char>>) -> Seq<RowV> {
    Seq::new(recipients.len(), |i: int| RowV { issue_id, recipient: recipients[i], lock: None })
}

/// The whole publish attempt as one transition on `(records, outbox)`:
/// what states it leads to and what the caller gets back.
pub open spec fn publish_step(
    records: Seq<RecordV>,
    outbox: Seq<RowV>,
    user_id: u128,
    key: Seq<char>,
    issue_id: u128,
    recipients: Seq<Seq<char>>,
) -> (Seq<RecordV>, Seq<RowV>, Result<RespV, PublishFlowError>) {
    if !spec_key_valid(key) {
        (records, outbox, Err(PublishFlowError::Validation(spec_key_rejection(key))))
    } else {
        match spec_lookup(records, user_id, key) {
            Some(Some(resp)) => (records, outbox, Ok(resp)),
            Some(None) => (records, outbox, Err(PublishFlowError::ConcurrencyConflict)),
            None => (
                records.push(
                    RecordV { user_id, key, response: Some(publish_response()) },
                ),
                outbox + publish_rows(issue_id, recipients),
                Ok(publish_response()),
            ),
        }
    }
}

/// Handles one publish request: validates the key before any storage
/// access, replays the saved response if this key already completed,
/// reports a conflict if it is still in flight, and otherwise — as the
/// single winner for this key — enqueues the delivery tasks and commits
/// the response into the key's record, all exactly as `publish_step` says.
pub fn handle_publish(
    store: &mut KeyStore,
    outbox: &mut OutboxQueue,
    user_id: u128,
    idempotency_key: &String,
    issue_id: u128,
    recipients: &Vec<String>,
) -> (r: Result<SavedResponse, PublishFlowError>)
    requires
        old(outbox).wf(),
    ensures
        final(outbox).wf(),
        ({
            let (s2, ob2, out2) = publish_step(
                old(store)@,
                old(outbox)@,
                user_id,
                idempotency_key@,
                issue_id,
                recipients@.map_values(|x: String| x@),
            );
            &&& final(store)@ =~= s2
            &&& final(outbox)@ =~= ob2
            &&& (match r {
                Ok(x) => out2 == Ok::<RespV, PublishFlowError>(x@),
                Err(e) => out2 == Err::<RespV, PublishFlowError>(e),
            })
        }),
        evolves(old(store)@, final(store)@),
{
    let ghost rec_views = recipients@.map_values(|x: String| x@);
    let key = match IdempotencyKey::try_new(idempotency_key.clone()) {
        Ok(k) => k,
        Err(rejection) => {
            return Err(PublishFlowError::Validation(rejection));
        },
    };
    if let Some(saved) = store.get_saved_response(user_id, &key) {
        return Ok(saved);
    }
    let next = match store.try_processing(user_id, &key) {
        Ok(n) => n,
        Err(e) => {
            return Err(e);
        },
    };
    match next {
        NextAction::ReturnSavedResponse(saved) => {
            // get_saved_response found nothing, and nothing has changed in
            // between: the store cannot hand back a completed record here.
            proof {
                assert(false);
            }
            Ok(saved)
        },
        NextAction::StartProcessing(token) => {
            let ghost s0 = old(store)@;
            let ghost s1 = store@;
            outbox.enqueue_many(issue_id, recipients);
            let response = SavedResponse::see_other("/admin/newsletters");
            proof {
                assert(response@ =~= publish_response());
                lemma_lookup_push(
                    s0,
                    RecordV { user_id, key: key@, response: None },
                    user_id,
                    key@,
                );
            }
            let saved = store.save_response(token, &response);
            proof {
                lemma_lookup_none_no_match(s0, user_id, key@);
                let i = choose|i: int|
                    0 <= i < s1.len() && (#[trigger] s1[i]).user_id == user_id && s1[i].key
                        == key@ && store@ =~= s1.update(
                        i,
                        RecordV { user_id, key: key@, response: Some(response@) },
                    );
                assert(i == s0.len());
                assert(store@ =~= s0.push(
                    RecordV { user_id, key: key@, response: Some(publish_response()) },
                ));
                assert(outbox@ =~= old(outbox)@ + publish_rows(issue_id, rec_views));
            }
            Ok(saved)
        },
    }
}

/// Idempotent replay: whenever a publish attempt succeeds, running the
/// identical attempt again from the resulting state returns exactly the
/// same response and moves nothing — no new record, no new outbox row.
/// The side effect of a publish happens at most once per key.
pub proof fn lemma_idempotent_replay(
    records: Seq<RecordV>,
    outbox: Seq<RowV>,
    user_id: u128,
    key: Seq<char>,
    issue_id: u128,
    recipients: Seq<Seq<char>>,
)
    ensures
        ({
            let (s1, ob1, r1) = publish_step(records, outbox, user_id, key, issue_id, recipients);
            let (s2, ob2, r2) = publish_step(s1, ob1, user_id, key, issue_id, recipients);
            r1 matches Ok(resp) ==> r2 == Ok::<RespV, PublishFlowError>(resp) && s2 == s1 && ob2
                == ob1
        }),
{
    let (s1, ob1, r1) = publish_step(records, outbox, user_id, key, issue_id, recipients);
    if r1 is Ok && spec_key_valid(key) {
        match spec_lookup(records, user_id, key) {
            Some(Some(resp)) => {
            },
            Some(None) => {
            },
            None => {
                lemma_lookup_push(
                    records,
                    RecordV { user_id, key, response: Some(publish_response()) },
                    user_id,
                    key,
                );
            },
        }
    }
}

} // verus!
