//! Parsing and formatting for a human-friendly, comment-preserving
//! configuration text format.
//!
//! A document is built from maps (`key: value`), lists (`[a, b]`),
//! variants (`"Rgb"(255, 0, 0)`), numbers, identifiers and four styles of
//! quoted strings. Comments (`// like this`) are kept in the token tree so
//! that a reformatted document keeps them.
//!
//! The pipeline is `text -> tokens -> TokenTree -> text`:
//! parsing is done by [`TokenTree::parse_str`], formatting by
//! [`TokenTree::format`], and [`reformat`] composes the two.

use vstd::prelude::*;

pub mod chars;
pub mod error;
pub mod format;
pub mod number;
pub mod parse;
pub mod span;
pub mod strings;
pub mod token_kind;
pub mod token_tree;
pub mod tokenize;

pub use crate::error::Error;
pub use crate::format::FormatOptions;
pub use crate::number::Number;
pub use crate::span::Span;
pub use crate::strings::{escape_and_quote, is_valid_identifier, unescape_and_unquote};
pub use crate::token_kind::TokenKind;
pub use crate::token_tree::{
    TokenKeyValue, TokenList, TokenMap, TokenTree, TokenValue, TokenVariant,
};
pub use crate::tokenize::{PlacedToken, PlacedTokenResult};

verus! {

/// Parse a document and render it back, re-indented and formatted in a
/// pretty way.
///
/// ## Errors
/// Returns an error if the source is not valid syntax.
pub fn reformat(source: &str, options: &FormatOptions) -> (r: Result<String, Error>)
    ensures
        match r {
            Ok(out) => crate::parse::spec_parse_top(source@) matches Ok(tree) && out@
                == crate::format::fmt_top(tree, options@),
            Err(e) => crate::parse::spec_parse_top(source@) == Err::<
                crate::token_tree::SpecTokenTree,
                crate::error::SpecErrorValue,
            >(e@),
        },
{
    match TokenTree::parse_str(source) {
        Ok(tree) => Ok(tree.format(options)),
        Err(e) => Err(e),
    }
}

} // verus!
