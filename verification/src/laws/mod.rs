//! What holds of the library's operations, in terms of their inputs and results.

pub mod audits;
pub mod pairs;
pub mod replies;
pub mod requests;
pub mod rows;
pub mod stores;
pub mod tables;
pub mod views;
pub mod words;
