//! Verified core of ContextDock: the text, scanning and prompt logic behind the
//! desktop app's commands. File system, process and clock access live in `app/`.

pub mod text;
pub mod shell;
pub mod git;
pub mod projects;
pub mod prompt;
pub mod order;
pub mod settings;
pub mod history;
