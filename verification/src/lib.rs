pub mod ansi;
pub mod commands;
pub mod error;
pub mod fork;
pub mod helpers;
pub mod input;
pub mod laws;
pub mod num;
pub mod redirect;
pub mod repl;
pub mod sort;
pub mod text;
