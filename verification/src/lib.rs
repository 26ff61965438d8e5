//! Verified core of a repository context engine.

pub mod chat;
pub mod indexing;
pub mod json;
pub mod llm;
pub mod parsing;
pub mod query;
pub mod router;
pub mod seqs;
pub mod store;
pub mod strmap;
pub mod text;
pub mod vector;
