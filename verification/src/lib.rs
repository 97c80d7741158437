//! Core logic of a terminal chat agent that exposes local skills and tools.
pub mod agent;
pub mod arguments;
pub mod assoc;
pub mod chat;
pub mod handlers;
pub mod json;
pub mod skills;
pub mod text;
pub mod tooling;
pub mod view;
pub mod wrap;
