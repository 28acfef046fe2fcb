//! A typed client library for an OpenAI-style chat-completions API, centred on
//! its batch facility: many chat requests are serialized into one
//! newline-delimited job-content blob, submitted as a single remote job,
//! polled to a terminal status under exponential backoff, and reconciled back
//! into the caller's original request order.
//!
//! The heart of the crate is verified:
//! - a JSON value type with a parser and a deterministic serializer
//!   ([`json`]), which give the job-content and result formats exact meaning;
//! - the schema canonicalizer ([`schema`]) that rewrites a response type's
//!   JSON Schema into the restricted dialect the provider's structured-output
//!   mode accepts;
//! - the submission planner ([`batch`]): request fingerprints, the
//!   order-independent submission digest used as an idempotency key, and the
//!   reuse decision over previously listed jobs;
//! - the poll/backoff state machine ([`poll`]) with a proved wait ceiling;
//! - the result reconciler ([`reconcile`]), whose output provably mirrors the
//!   caller's submission order position by position.
//!
//! Network transport, file upload/download and environment handling are not
//! part of the library; they live in the surrounding application code, which
//! hands plain values in and out.

pub mod batch;
pub mod chat_completions;
pub mod files;
pub mod json;
pub mod poll;
pub mod reconcile;
pub mod schema;
pub mod strutil;
