//! Key-matrix scanning: a scan engine that strobes rows and samples columns,
//! per-key change detection, and the consumer-side wait logic of a key handle.
//! Pin I/O, timers and task suspension are performed by the caller; this crate
//! decides what to do at every step.

mod channel;
pub mod key;
pub mod handle;
pub mod matrix;

pub use channel::KeyChannel;
