//! Repo chat: a streaming, tool-calling agent that answers questions about a
//! single repository. It is **hard-locked** to exactly two tools,
//! `codebase-retrieval` and `file-retrieval`, both scoped to the repo the
//! conversation was opened for.
//!
//! Conversation state lives only in memory ([`store::ConversationStore`]), keyed
//! by a client-generated id. The store is bounded in the number of conversations
//! and in the length of each, and keeps only the plain-text transcript (user
//! questions and assistant answers), never the tool-call and result history.

pub mod store;
pub mod tools;
pub mod turn;
