//! Tensor-to-candidate decoding.
//!
//! Two drop-in strategies, selected by model configuration: span mode
//! ([`span`]), which reads a `(batch, num_words, max_width, num_classes)`
//! span-grid tensor, and token mode ([`token`]), which reads per-token
//! start/end boundary tensors.  Both emit unsorted candidate spans with the
//! same invariants and the same inclusive threshold semantics.

pub mod span;
pub mod token;
