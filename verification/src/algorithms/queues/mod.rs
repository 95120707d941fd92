//! Queues of states.

pub mod fifo_queue;
pub mod queue;
pub mod scc_queue;

pub use self::fifo_queue::FifoQueue;
pub use self::queue::{Queue, QueueType};
pub use self::scc_queue::SccQueue;
