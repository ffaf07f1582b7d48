//! Compiler, decoder and runtime object model for LitScript, a small
//! line-oriented language for describing a game's name, image materials and
//! draw commands. Script lines are compiled to a compact big-endian binary
//! stream; at startup the stream is decoded and evaluated into a parser
//! state, whose pending materials are resolved, in dependency order, into a
//! generational resource dictionary.

pub mod color;
pub mod command;
pub mod compile;
pub mod dictionary;
pub mod draw;
pub mod error;
pub mod eval;
pub mod game;
pub mod idmap;
pub mod literals;
pub mod laws;
pub mod material;
pub mod resource;
pub mod script;
pub mod state;
pub mod text;
pub mod token;
pub mod types;
pub mod wire;
