//! What can go wrong when YAML is parsed.

use crate::source_text::Marker;
use vstd::prelude::*;

verus! {

/// Why a text could not be parsed.
#[derive(Debug)]
pub enum Error {
    /// The text is not a YAML document.
    ParseError {
        /// What is wrong.
        message: String,
        /// Where it is wrong, if it can be told.
        location: Option<Marker>,
    },
}

/// What an error says, apart from how it is stored.
pub enum ErrorView {
    ParseError { message: Seq<char>, location: Option<Marker> },
}

impl View for Error {
    type V = ErrorView;

    open spec fn view(&self) -> ErrorView {
        match self {
            Error::ParseError { message, location } => ErrorView::ParseError {
                message: message@,
                location: *location,
            },
        }
    }
}

} // verus!
