//! A store of short notes, one markdown file with a header per record.
//!
//! `memory` holds the record, its stored text and the strict and recovering
//! readers; `store` decides what the store's operations read, write and
//! return; `backend` is the service facade; `timestamp` and `text` hold the
//! instants and the text primitives they rest on. Reading and writing files is
//! left to the caller, which hands the store the names and texts it found.

pub mod text;
pub mod timestamp;
pub mod memory;
pub mod store;
pub mod backend;
