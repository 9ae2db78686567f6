//! A fixed-size worker pool: the decisions of its workers, its task queue and
//! its barrier, together with the chunk splitter and the summing tasks that
//! divide an array among the workers.

pub mod barrier;
pub mod chunks;
pub mod pool;
pub mod tasks;
