//! The failures of a run, one variant for each kind that a caller can tell
//! apart.

use vstd::prelude::*;

verus! {

/// Why a run ended without an output image.
#[derive(Debug, Clone, PartialEq, Eq)]
pub enum Error {
    /// The source or the parameter file cannot be read, or the destination
    /// cannot be written to or does not carry the expected extension.
    Io(String),
    /// The source is no image that can be decoded, or the result cannot be
    /// encoded.
    ImageError(String),
    /// No file of the module's name is in the search directory.
    ModuleNotFound(String),
    /// The module's file is there and cannot be loaded.
    ModuleLoadError(String),
    /// The module does not export the entry point.
    SymbolNotFound(String),
    /// The parameter text holds a zero byte, at this position; it is the
    /// first one.
    EmbeddedTerminator(usize),
}

/// An error as contracts speak of it: each message by its characters.
pub enum ErrorView {
    Io(Seq<char>),
    ImageError(Seq<char>),
    ModuleNotFound(Seq<char>),
    ModuleLoadError(Seq<char>),
    SymbolNotFound(Seq<char>),
    EmbeddedTerminator(int),
}

impl View for Error {
    type V = ErrorView;

    open spec fn view(&self) -> ErrorView {
        match *self {
            Error::Io(message) => ErrorView::Io(message@),
            Error::ImageError(message) => ErrorView::ImageError(message@),
            Error::ModuleNotFound(message) => ErrorView::ModuleNotFound(message@),
            Error::ModuleLoadError(message) => ErrorView::ModuleLoadError(message@),
            Error::SymbolNotFound(message) => ErrorView::SymbolNotFound(message@),
            Error::EmbeddedTerminator(position) => ErrorView::EmbeddedTerminator(position as int),
        }
    }
}

} // verus!
