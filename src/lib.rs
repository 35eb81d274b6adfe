//! Core of an interactive shell: line editing with cycling completion,
//! completion candidates, command history and command dispatch.
pub mod text;
pub mod completion;
pub mod editor;
pub mod history;
pub mod command;
