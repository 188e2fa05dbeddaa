//! First-in-first-out queues over a ring buffer, with bulk transfer through
//! regions of the buffer that a queue exposes to its caller.
//!
//! - [`Fixed`] holds its ring in one heap allocation whose size is chosen at
//!   creation.
//! - [`Static`] holds its ring in an array whose size is a type parameter,
//!   and allocates nothing.
//!
//! Both implement [`Queue`], on top of the index arithmetic in `ring`.
//! The module [`laws`] states what sequences of operations do.

mod ring;

mod fixed;
pub mod laws;
mod queue;
mod static_queue;

pub use fixed::Fixed;
pub use queue::{bulk_enqueue_step, dequeue_step, enqueue_step, Queue};
pub use ring::{item_run_len, ring_index, slot_run_len};
pub use static_queue::Static;
