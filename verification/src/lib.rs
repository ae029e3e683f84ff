//! An adapter layer that bridges a concrete HTTP transport to a
//! transport-independent handler contract.  For each inbound connection
//! it folds the raw header lines into a case-insensitive table, adapts
//! the transport's request data into a neutral request, invokes a
//! pluggable handler, falls back to a synthesized 500 response when the
//! handler fails, and emits the chosen response under the two-phase
//! (headers-then-body) write protocol.

pub mod emitter;
pub mod extensions;
pub mod headers;
pub mod lifecycle;
pub mod request;
pub mod response;
pub mod text;
