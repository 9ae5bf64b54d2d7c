//! StudyBuddy: the logic of a spaced-repetition server that turns markdown
//! notes into flashcards, as a verified library.

pub mod api;
pub mod cli;
pub mod client;
pub mod cloze;
pub mod config;
pub mod error;
pub mod ingest;
pub mod llm;
pub mod model;
pub mod path;
pub mod scheduler;
pub mod store;
pub mod text;
pub mod trusted;
pub mod watcher;
pub mod wire;
