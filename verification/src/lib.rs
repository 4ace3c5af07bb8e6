//! Plumbline's headless study core, verified.

pub mod akjv;
pub mod canon;
pub mod cards;
pub mod church;
pub mod civil;
pub mod config;
pub mod corpus;
pub mod crossref;
pub mod devotional;
pub mod export;
pub mod font;
pub mod gloss;
pub mod home;
pub mod hymnal;
pub mod i18n;
pub mod memory;
pub mod notes;
pub mod order;
pub mod panel;
pub mod reference;
pub mod text;

pub use corpus::{Corpus, Token, Verse};
pub use reference::VRef;

use vstd::prelude::*;

verus! {

/// The library's error type: what a loader reports; pure functions do not fail.
#[derive(Debug, Clone, PartialEq, Eq)]
pub enum Error {
    /// A file that is not what it claims to be.
    Parse(String),
    /// A corpus that breaks its own rules.
    Corpus(String),
}

} // verus!
