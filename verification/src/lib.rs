//! Guest-side runtime adapter for a hosted model execution platform.
//!
//! The library holds the verified core of the adapter: the length-prefixed
//! frame codec for the byte stream shared with the host, the JSON emitter for
//! outbound bodies, the one-shot broadcast waiter, the lazy data loader with
//! request/reply correlation, the chunked state provider, the train tracker,
//! the command dispatcher's registries and result assembly, and the
//! panic-report formatter. The surrounding process (socket I/O, the task
//! executor, inbound JSON parsing) lives outside the library and hands it
//! plain values.

pub mod async_waiter;
pub mod codec;
pub mod dataloader;
pub mod json;
pub mod messages;
pub mod panicfmt;
pub mod runner;
pub mod sender;
pub mod stateprovider;
pub mod traintracker;
