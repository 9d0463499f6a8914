//! The error type of parsing and unquoting.

use vstd::prelude::*;

use crate::span::Span;

verus! {

/// An error produced while parsing or unquoting.
///
/// Either a plain message, or a message located at a [`Span`] of the source
/// text; a located error carries the source so that a caller can render a
/// caret/underline diagnostic from `(source, span, message)`.
#[derive(Debug)]
pub enum Error {
    /// An error with no location.
    Custom {
        /// What went wrong.
        msg: String,
    },
    /// An error at a place in the source text.
    At {
        /// The whole source text that was being parsed.
        source: String,
        /// Where in `source` the error is.
        span: Span,
        /// What went wrong.
        message: String,
    },
}

/// The mathematical shape of an [`Error`].
pub enum SpecErrorValue {
    Custom { msg: Seq<char> },
    At { source: Seq<char>, span: Span, msg: Seq<char> },
}

impl View for Error {
    type V = SpecErrorValue;

    open spec fn view(&self) -> SpecErrorValue {
        match self {
            Error::Custom { msg } => SpecErrorValue::Custom { msg: msg@ },
            Error::At { source, span, message } => SpecErrorValue::At {
                source: source@,
                span: *span,
                msg: message@,
            },
        }
    }
}

impl SpecErrorValue {
    /// The message of the error, wherever it sits.
    pub open spec fn spec_msg(self) -> Seq<char> {
        match self {
            SpecErrorValue::Custom { msg } => msg,
            SpecErrorValue::At { msg, .. } => msg,
        }
    }
}

impl Error {
    /// An error located at `span` of `source`.
    pub fn new_at(source: &str, span: Span, message: String) -> (r: Error)
        ensures
            r@ == (SpecErrorValue::At { source: source@, span, msg: message@ }),
    {
        Error::At { source: source.to_owned(), span, message }
    }

    /// An error with no location.
    pub fn custom(message: String) -> (r: Error)
        ensures
            r@ == (SpecErrorValue::Custom { msg: message@ }),
    {
        Error::Custom { msg: message }
    }

    /// The message, without any location information.
    pub fn message(&self) -> (r: &String)
        ensures
            r@ == self@.spec_msg(),
    {
        match self {
            Error::Custom { msg } => msg,
            Error::At { message, .. } => message,
        }
    }

    /// The place in the source text the error points at, if any.
    pub fn location(&self) -> (r: Option<Span>)
        ensures
            match r {
                Some(span) => self@ matches SpecErrorValue::At { span: s, .. } && s == span,
                None => self@ is Custom,
            },
    {
        match self {
            Error::Custom { .. } => None,
            Error::At { span, .. } => Some(*span),
        }
    }

    /// The source text the error points into, if any.
    pub fn source_text(&self) -> (r: Option<&String>)
        ensures
            match r {
                Some(src) => self@ matches SpecErrorValue::At { source: s, .. } && s == src@,
                None => self@ is Custom,
            },
    {
        match self {
            Error::Custom { .. } => None,
            Error::At { source, .. } => Some(source),
        }
    }
}

} // verus!
