//! Dense matrix multiplication organised around a pool of workers: the
//! product is cut into one task per output cell, each task is a dot product,
//! and the results are assembled by the destination index that each carries.

pub mod error;
pub mod integers;
pub mod matrix;
pub mod pool;
pub mod task;
pub mod text;
pub mod vector;

pub use error::Error;
pub use matrix::Matrix;
pub use pool::{multiply, multiply_with_workers, Collector, NUM_THREADS};
pub use task::{Msg, MsgInput, MsgOutput};
pub use vector::{dot_product, Vector};
