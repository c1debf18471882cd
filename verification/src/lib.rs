//! Index-addressable, resizable sequence containers built on one owned
//! contiguous region: a growable buffer with explicit capacity and size
//! bookkeeping, and ring-buffer queues layered on it that support FIFO
//! operations and arbitrary-position insertion and removal by shifting the
//! shorter side.

pub mod array;
pub mod array_deque;
pub mod array_queue;
pub mod array_stack;
pub mod ring;
