//! Catalog engine for files spread over storage libraries: reconciliation of a
//! library against a live listing, hierarchical tags derived from directory
//! paths, and a priority queue of background tasks with its state machine.

pub mod text;
pub mod path;
pub mod catalog;
pub mod tags;
pub mod scanner;
pub mod worker;
pub mod thumbnail;
pub mod tree;
pub mod storage;
pub mod dto;
pub mod library;
pub mod query;
