//! A model-agnostic facade for local inference.
//!
//! A [`Runtime`] keeps [`Model`]s; a model generates a [`Response`] from an
//! [`Input`], or from a [`Session`], the record of a conversation. What a
//! reply is made of comes as [`Event`]s. The agent modules decide what
//! happens above that: which tools run, in which order, and when a run ends.
//!
//! Everything here decides and records; whoever calls it does the reading,
//! the sending and the waiting.
pub mod agent;
pub mod agent_config;
pub mod agent_laws;
pub mod agent_loop;
pub mod agent_run;
pub mod bridge;
pub mod channels;
pub mod chat;
pub mod classify;
pub mod engine;
pub mod error;
pub mod event;
pub mod event_laws;
pub mod event_stream;
pub mod extract;
pub mod fit;
pub mod generation;
pub mod hf;
pub mod hf_files;
pub mod hf_resolve;
pub mod inference;
pub mod input;
pub mod json;
pub mod matching;
pub mod message;
pub mod model;
pub mod output;
pub mod response;
pub mod round_laws;
pub mod rounds;
pub mod runtime;
pub mod seqs;
pub mod session;
pub mod session_facts;
pub mod session_laws;
pub mod session_model;
pub mod spawned;
pub mod stream;
pub mod text;
pub mod tool_defs;
pub mod tools;

pub use crate::error::Error;
pub use crate::event::Event;
pub use crate::generation::Generation;
pub use crate::input::Input;
pub use crate::model::Model;
pub use crate::response::Response;
pub use crate::runtime::{
    ModelResidency, RemoteModelBuilder, ResidencySnapshot, Runtime, RuntimeBuilder, RuntimeStats,
};
pub use crate::session::Session;
pub use crate::tool_defs::{ToolDefinition, ToolSet};
