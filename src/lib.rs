//! A fixed batch of work items handed from one dispatcher to a pool of
//! workers through a shared FIFO queue with an open/closed lifecycle.

pub mod task;
pub mod queue;
pub mod worker;
pub mod pool;
