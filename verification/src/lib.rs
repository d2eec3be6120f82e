//! comment-warden: finds the comments of a source file, judges each one tagged,
//! exempt or untagged, and strips the untagged ones without moving a code byte.
pub mod attrs;
pub mod comment;
pub mod config;
pub mod error;
pub mod gather;
pub mod generated;
pub mod lang;
pub mod laws;
pub mod nix;
pub mod parse;
pub mod scan;
pub mod script;
pub mod strip;
pub mod syntax;
pub mod text;
pub mod vocabulary;
