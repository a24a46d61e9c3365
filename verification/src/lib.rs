//! The working-context engine: which project the user is in, what the session state is, what a
//! wake-up prompt shows of it, and what the background curator remembers.
pub mod context;
pub mod curator;
pub mod duplicate;
pub mod note;
pub mod outside;
pub mod ratio;
pub mod sorted;
pub mod text;
pub mod text_laws;
pub mod time;
