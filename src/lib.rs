//! Streaming ingestion of tab-separated title records: line parsing with the
//! `\N` null-marker convention, the reader stage that selects records and
//! keeps the progress counters, and the batching writer workers.

pub mod parse;
pub mod title_basics;
pub mod message;
pub mod progress;
pub mod reader;
pub mod writer;
