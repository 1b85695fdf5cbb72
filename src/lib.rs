//! An embeddable workflow engine: a directed graph of typed actions whose edges
//! carry data and control flow, a scheduler that decides which nodes run next,
//! skip propagation for conditional branches, an event bus filtered by glob
//! patterns, and a template layer that binds outputs and environment values
//! into node inputs.

pub mod action;
pub mod channel;
pub mod code;
pub mod error;
pub mod events;
pub mod model;
pub mod dispatch;
pub mod edge;
pub mod engine;
pub mod graph;
pub mod if_else;
pub mod json;
pub mod node;
pub mod process;
pub mod template;
mod text;
