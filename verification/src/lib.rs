//! The logic of a scraper for Divar listings: what it asks of the search feed, how it
//! paces and retries its requests, what it stores, and how it turns what it stored into
//! tables.
//!
//! Reading and writing files, the network and the command line are not here: functions
//! take the lines of a store or the reply of a server and say what follows from them.

pub mod audit;
pub mod cities;
pub mod clock;
pub mod codec;
pub mod export;
pub mod failures;
pub mod feed;
pub mod fetch;
pub mod flatten;
pub mod harvest;
pub mod json;
pub mod keymap;
pub mod laws;
pub mod observe;
pub mod probe;
pub mod records;
pub mod search;
pub mod seqs;
pub mod store;
pub mod text;
pub mod throttle;
