//! Core of a small word-of-the-day client: selectable grammatical
//! categories and dictionary languages, the request URL built from a
//! selection, a decoder for the JSON word list the server answers with,
//! and the session state that holds the outcome of the latest fetch.

pub mod model;
pub mod session;
pub mod wire;
