//! Memory and retrieval core of a conversational agent.
//!
//! The core holds what an agent remembers and finds it again:
//!
//! - `memory_engine`: working memory, episodic memory with a keyword index and
//!   eviction by worth, and semantic memory;
//! - `embedding_cache`: a bounded cache of embedding vectors;
//! - `similarity`: the ranking step of a nearest-neighbour search.
//!
//! Beside it stand the text utilities of the agent: `tool_parser`,
//! `emotion_analyzer`, `thread_tracker` and `context_compressor`.
//!
//! Every operation is sequential and takes its state by reference; callers
//! that share a value between threads put it behind a lock of their own. The
//! core reads no files: what is kept on disk is handed in and out as plain
//! values. Numbers with a fraction do not occur; a similarity or a component
//! of a vector is held as the bit pattern of a single-precision number.
//!
//! Some items state what code outside this crate does, and prove nothing: all of
//! `stores` (concurrent hash maps) and `matcher` (multi-pattern search), and the
//! items marked as such in `clock`, `hashing` and `text`.

pub mod chars;
pub mod clock;
pub mod hashing;
pub mod matcher;
pub mod ranking;
pub mod stores;
pub mod text;

pub mod episode;
pub mod eviction;
pub mod keyword_index;
pub mod keywords;
pub mod retrieval;

pub mod embedding_cache;
pub mod memory_engine;
pub mod similarity;

pub mod call_syntax;
pub mod context_compressor;
pub mod emotion_analyzer;
pub mod thread_tracker;
pub mod tool_parser;
