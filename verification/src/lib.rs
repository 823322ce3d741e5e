//! Ingestion pipeline of a block indexer: the rules by which blocks are
//! fetched in adaptive windows, decoded into rows and committed one block
//! at a time.

pub mod block_handle;
pub mod block_read;
pub mod bytes;
pub mod chain;
pub mod models;
pub mod text;
