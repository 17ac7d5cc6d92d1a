//! A paste store: entries are kept under short, unguessable URL tokens and
//! read back raw or with syntax highlighting, until they expire or are
//! burned after their first read.
//!
//! The crate is organised leaf-first: the [`id`] codec maps 32-bit ids to
//! URL-safe tokens and back, [`key`] parses request path segments, [`store`]
//! is the dumb key-value backend, and [`layer`] orchestrates id allocation,
//! expiry, burn-after-reading, and the rendered-output cache. Every
//! operation's outcome is specified against the state model in [`model`],
//! and the laws in [`laws`] are proved of that model.

use vstd::prelude::*;

pub mod form;
pub mod id;
pub mod key;
pub mod laws;
pub mod layer;
pub mod model;
pub mod render;
pub mod store;

verus! {

/// Failures surfaced by the paste store and its parsers.
///
/// The backing store in [`store`] is an in-memory map and cannot fail, so
/// no store-fault variant exists here; a fallible backend would add one,
/// and the layer would pass it through verbatim.
#[derive(Clone, Copy, Debug, PartialEq, Eq, Structural)]
pub enum Error {
    /// The entry is absent, expired, or already burned.
    NotFound,
    /// An identifier token does not decode to an id.
    InvalidId,
    /// A token or extension holds characters outside the accepted set.
    IllegalCharacters,
    /// The id-allocation retry budget was exhausted.
    OutOfIds,
}

/// A stored paste: its text and the policies that govern its lifetime.
#[derive(Debug)]
pub struct Entry {
    /// The raw paste content.
    pub text: String,
    /// Language or file-extension hint; `None` means plain text.
    pub extension: Option<String>,
    /// Relative time to live in seconds; `None` or `Some(0)` never expires.
    pub expires: Option<u32>,
    /// When `Some(true)`, the entry is deleted on its first successful read.
    pub burn_after_reading: Option<bool>,
}

/// Mathematical image of an [`Entry`].
pub struct EntryView {
    pub text: Seq<char>,
    pub extension: Option<Seq<char>>,
    pub expires: Option<u32>,
    pub burn: bool,
}

impl View for Entry {
    type V = EntryView;

    open spec fn view(&self) -> EntryView {
        EntryView {
            text: self.text@,
            extension: match self.extension {
                Some(e) => Some(e@),
                None => None,
            },
            expires: self.expires,
            burn: self.burn_after_reading == Some(true),
        }
    }
}

impl Entry {
    /// A copy of this entry with the same content and policies.
    pub fn duplicate(&self) -> (r: Entry)
        ensures
            r@ == self@,
    {
        Entry {
            text: self.text.clone(),
            extension: match &self.extension {
                Some(e) => Some(e.clone()),
                None => None,
            },
            expires: self.expires,
            burn_after_reading: self.burn_after_reading,
        }
    }
}

impl Error {
    /// Short human-readable description of the error.
    pub fn message(&self) -> (r: &'static str)
        ensures
            match self {
                Error::NotFound => r@ == "paste not found"@,
                Error::InvalidId => r@ == "invalid id"@,
                Error::IllegalCharacters => r@ == "illegal characters"@,
                Error::OutOfIds => r@ == "out of ids"@,
            },
    {
        match self {
            Error::NotFound => "paste not found",
            Error::InvalidId => "invalid id",
            Error::IllegalCharacters => "illegal characters",
            Error::OutOfIds => "out of ids",
        }
    }
}

} // verus!
