//! Flashcard generation from free-form model output.
//!
//! The crate turns raw text returned by a language-model provider into
//! structured notes, builds the provider prompts and request payloads,
//! merges per-request constraints with persisted defaults, and keeps
//! provider credentials masked across configuration writes.

pub mod boundary;
pub mod config;
pub mod controller;
pub mod errors;
pub mod input;
pub mod json;
pub mod parser;
pub mod prompt;
pub mod providers;
pub mod text;
pub mod types;
