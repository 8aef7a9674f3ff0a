//! Surface-number synthesis for layered-sprite characters.
//!
//! A character is a list of groups, each offering several named poses. Every
//! choice of one pose per group is a surface; this library numbers the
//! surfaces, keeps the numbers of different characters apart and renders the
//! resulting lookup table as text.

pub mod ast;
pub mod config;
pub mod digits;
pub mod encoding;
pub mod limits;
pub mod offset;
pub mod prompt;
pub mod selection;
pub mod table;
pub mod whitelist;
