//! Turns the most recent edition of a newspaper, as a reader application
//! keeps it in its database, into the documents of an e-book: a navigation
//! document, a content document and a manifest.
//!
//! Text is modelled as sequences of characters. Every function that builds a
//! document states exactly which characters it returns.

pub mod anchor;
pub mod article;
pub mod batch;
pub mod clock;
pub mod decimal;
pub mod document;
pub mod edition;
pub mod error;
pub mod links;
pub mod manifest;
pub mod markup;
pub mod pipeline;
pub mod scan;
pub mod sections;
pub mod sources;
pub mod text;
pub mod toc;

pub use crate::anchor::make_name;
pub use crate::article::{Article, Config};
