//! A lexical scanner for SPL, a small teaching language, together with the
//! containers and exercises that accompany it.

pub mod brackets;
pub mod chars;
pub mod cursor;
pub mod error;
pub mod grammar;
pub mod laws;
pub mod lexer;
pub mod stack;
pub mod text;
pub mod token;
pub mod tree;
