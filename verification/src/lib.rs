//! The verified core of a scene preview editor.

pub mod cache;
pub mod chars;
pub mod grammar;
pub mod image;
pub mod ipc;
pub mod lexer;
pub mod names;
pub mod plan;
pub mod playback;
pub mod protocol;
pub mod scenes;
pub mod schedule;
pub mod scripts;
pub mod session;
pub mod slots;
pub mod syntax;
pub mod text;
pub mod timing;
