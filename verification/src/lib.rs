//! The core of a search engine's write path: a queue of tasks with its indices,
//! the batcher that groups tasks, the steps of the processor that runs the
//! batches, and the per-thread caches in which the indexer collects the changes
//! to posting lists before they are merged.
//!
//! Every function carries a contract, and Verus proves that the function meets
//! it. What is taken from other crates is given its contract where it is called:
//! bitmaps in [`bitmap`], the arena and its packed lists in [`arena`].

pub mod arena;
pub mod autobatcher;
pub mod batch_store;
pub mod batches;
pub mod bitmap;
pub mod cache;
pub mod clock;
pub mod cluster;
pub mod consistency;
pub mod del_add;
pub mod doc_ids;
pub mod doc_index;
pub mod documents_addition;
pub mod errors;
pub mod indices;
pub mod keys;
pub mod order;
pub mod processor;
pub mod queue;
pub mod scheduler;
pub mod search;
pub mod sort_by;
pub mod sorted_map;
pub mod table;
pub mod tally;
pub mod tasks;
pub mod utils;
pub mod words_proximity;
