//! A small task tracker: an ordered store of tasks that can be added to,
//! completed and listed, with every rule of the store proved by Verus.
//! Reading and writing the backing file is left to the caller.

pub mod task;
pub mod store;
pub mod decimal;
pub mod listing;
