//! Core of a newsletter service whose publish action is safe to retry:
//! idempotency keys with saved-response replay, and a transactional outbox
//! drained by competing delivery workers.

pub mod auth;
pub mod codec;
pub mod errors;
pub mod keys;
pub mod login;
pub mod outbox;
pub mod publish;
pub mod response;
pub mod store;
pub mod subscriptions;
pub mod text;
pub mod worker;
