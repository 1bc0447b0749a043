//! The orchestration core of a tree-structured type-annotation
//! completer: a code file is decomposed into nested blocks, candidate
//! completions are generated bottom-up level by level with bounded
//! combinatorial cost, and the woven root candidates are handed back.
//! The pipeline states, the budget distribution, the merge strategies,
//! the query cache key and the analyzer wire requests are specified
//! and verified here; the analyzer process, the completion engine and
//! the key-value store stay behind narrow interfaces.

pub mod cache;
pub mod engine;
pub mod json;
pub mod langserver;
pub mod stats;
pub mod strutil;
pub mod tree;
