//! A container that starts threads and joins, when it is disposed of, those
//! it was asked to collect.
//!
//! The container is generic in the handle type and is given the operations
//! that start and join a thread as arguments, so that everything it does with
//! the handles is verified for whatever those operations do.

pub mod spawner;
pub mod outcomes;

pub use spawner::Spawner;
pub use outcomes::{verdict, JoinFailure};
