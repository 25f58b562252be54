//! Decoding core for zero-shot information extraction.
//!
//! Given per-span (or per-token-boundary) score tensors produced by an
//! external neural scorer, this library reconstructs labeled text spans and,
//! optionally, subject-relation-object triples validated against a declared
//! relation schema.  Every stage is a pure transformation with a verified
//! contract:
//!
//! * [`context`] — immutable per-batch metadata (texts, token boundaries,
//!   label vocabulary) shared by all stages;
//! * [`score`] — fixed-point probabilities (the external scorer's raw logits
//!   are squashed once, outside the core, by a monotonic sigmoid);
//! * [`span`] — scored candidate spans;
//! * [`tensor`] — named score tensors as flat vectors with explicit shapes;
//! * [`decode`] — tensor-to-candidate decoding (span mode and token mode);
//! * [`sort`] — the deterministic candidate order the resolver relies on;
//! * [`greedy`] — the greedy conflict resolver (flat / duplicate-label /
//!   multi-label policies);
//! * [`schema`] — relation schemas: allowed subject and object labels per
//!   relation class;
//! * [`relation`] — decoding of relation-encoded span labels into validated
//!   relation triples;
//! * [`pipeline`] — typed stage composition;
//! * [`modes`] — the pre-assembled per-mode decoding chains.

pub mod score;
pub mod context;
pub mod span;
pub mod tensor;
pub mod decode;
pub mod sort;
pub mod greedy;
pub mod schema;
pub mod relation;
pub mod pipeline;
pub mod modes;
