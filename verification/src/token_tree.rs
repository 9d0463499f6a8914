//! The structure of a parsed document, including comments.
//!
//! The comments are preserved for the benefit of the formatter.

use vstd::prelude::*;

use crate::span::Span;

verus! {

/// A tree of tokens, representing the structure of a parsed document,
/// including comments.
///
/// This is something between a concrete and an abstract syntax tree: it
/// preserves comments, but discards whitespace and some optional tokens
/// (like commas after list items).
#[derive(Debug)]
pub struct TokenTree {
    /// The range of this token tree in the source text, if known.
    pub span: Option<Span>,
    /// Comments on preceding lines, each including the leading slashes.
    pub prefix_comments: Vec<String>,
    /// The actual value.
    pub value: TokenValue,
    /// Comment after the value on the same line: `value // Like this`.
    pub suffix_comment: Option<String>,
}

/// One `key: value` entry of a map.
#[derive(Debug)]
pub struct TokenKeyValue {
    /// The key of the key-value pair.
    pub key: TokenTree,
    /// The value of the key-value pair.
    pub value: TokenTree,
}

/// A map, like `{ key: value, … }`.
#[derive(Debug)]
pub struct TokenMap {
    /// The entries, in source order.
    pub key_values: Vec<TokenKeyValue>,
    /// Any comments after the last `key: value` pair, before the closing `}`.
    pub closing_comments: Vec<String>,
}

/// A list, like `[ a, b, c, … ]`.
#[derive(Debug)]
pub struct TokenList {
    /// The elements, in source order.
    pub values: Vec<TokenTree>,
    /// Any comments after the last value, before the closing `]`.
    pub closing_comments: Vec<String>,
}

/// A sum-type (enum) variant, like `"Rgb"(255, 0, 0)`.
#[derive(Debug)]
pub struct TokenVariant {
    /// Range of just the name.
    pub name_span: Option<Span>,
    /// The quoted name of the variant, like `"Rgb"`.
    pub quoted_name: String,
    /// The contents of the variant, like `255, 0, 0`.
    pub values: Vec<TokenTree>,
    /// Any comments after the last value, before the closing `)`.
    pub closing_comments: Vec<String>,
}

/// The value of a [`TokenTree`] node.
#[derive(Debug)]
pub enum TokenValue {
    /// `null`, `true`, or `false`, or the key of a map (when quotes aren't needed).
    Identifier(String),
    /// Anything that starts with a sign (+/-) or a digit (0-9).
    Number(String),
    /// Includes the actual quotes of the string, both opening and closing,
    /// of whichever of the four quote styles matched.
    QuotedString(String),
    /// A list, like `[ a, b, c, … ]`.
    List(TokenList),
    /// A map, like `{ key: value }`.
    Object(TokenMap),
    /// A sum-type (enum) variant.
    Variant(TokenVariant),
}

/// The mathematical shape of a [`TokenTree`]: the same structure over
/// sequences of characters.
pub struct SpecTokenTree {
    pub span: Option<Span>,
    pub prefix_comments: Seq<Seq<char>>,
    pub value: SpecTokenValue,
    pub suffix_comment: Option<Seq<char>>,
}

/// The mathematical shape of a [`TokenKeyValue`].
pub struct SpecTokenKeyValue {
    pub key: SpecTokenTree,
    pub value: SpecTokenTree,
}

/// The mathematical shape of a [`TokenValue`].
pub enum SpecTokenValue {
    Identifier(Seq<char>),
    Number(Seq<char>),
    QuotedString(Seq<char>),
    List(Seq<SpecTokenTree>, Seq<Seq<char>>),
    Object(Seq<SpecTokenKeyValue>, Seq<Seq<char>>),
    Variant(Option<Span>, Seq<char>, Seq<SpecTokenTree>, Seq<Seq<char>>),
}

/// The views of a sequence of strings.
pub open spec fn spec_strings(ss: Seq<String>) -> Seq<Seq<char>> {
    Seq::new(ss.len(), |i: int| ss[i]@)
}

/// The view of an optional string.
pub open spec fn spec_opt_string(o: Option<String>) -> Option<Seq<char>> {
    match o {
        Some(x) => Some(x@),
        None => None,
    }
}

/// Pushing passes through `spec_strings`.
pub proof fn lemma_spec_strings_push(a: Seq<String>, x: String)
    ensures
        spec_strings(a.push(x)) == spec_strings(a).push(x@),
{
    assert(spec_strings(a.push(x)) =~= spec_strings(a).push(x@));
}

/// The shapes of a sequence of trees.
pub open spec fn spec_trees(ts: Seq<TokenTree>) -> Seq<SpecTokenTree>
    decreases ts,
{
    if ts.len() == 0 {
        Seq::empty()
    } else {
        spec_trees(ts.subrange(0, ts.len() - 1)).push(spec_tree(ts[ts.len() - 1]))
    }
}

/// The shapes of a sequence of key-value pairs.
pub open spec fn spec_key_values(kvs: Seq<TokenKeyValue>) -> Seq<SpecTokenKeyValue>
    decreases kvs,
{
    if kvs.len() == 0 {
        Seq::empty()
    } else {
        spec_key_values(kvs.subrange(0, kvs.len() - 1)).push(
            SpecTokenKeyValue {
                key: spec_tree(kvs[kvs.len() - 1].key),
                value: spec_tree(kvs[kvs.len() - 1].value),
            },
        )
    }
}

/// `spec_trees` maps `spec_tree` over the sequence, element by element.
pub proof fn lemma_spec_trees(ts: Seq<TokenTree>)
    ensures
        spec_trees(ts).len() == ts.len(),
        forall|i: int| 0 <= i < ts.len() ==> spec_trees(ts)[i] == spec_tree(ts[i]),
    decreases ts.len(),
{
    if ts.len() > 0 {
        lemma_spec_trees(ts.subrange(0, ts.len() - 1));
    }
}

/// `spec_key_values` maps the key and value shapes over the sequence,
/// element by element.
pub proof fn lemma_spec_key_values(kvs: Seq<TokenKeyValue>)
    ensures
        spec_key_values(kvs).len() == kvs.len(),
        forall|i: int|
            0 <= i < kvs.len() ==> spec_key_values(kvs)[i] == (SpecTokenKeyValue {
                key: spec_tree(kvs[i].key),
                value: spec_tree(kvs[i].value),
            }),
    decreases kvs.len(),
{
    if kvs.len() > 0 {
        lemma_spec_key_values(kvs.subrange(0, kvs.len() - 1));
    }
}

/// The shape of a [`TokenValue`].
pub open spec fn spec_value(v: TokenValue) -> SpecTokenValue
    decreases v,
{
    match v {
        TokenValue::Identifier(s) => SpecTokenValue::Identifier(s@),
        TokenValue::Number(s) => SpecTokenValue::Number(s@),
        TokenValue::QuotedString(s) => SpecTokenValue::QuotedString(s@),
        TokenValue::List(l) => SpecTokenValue::List(
            spec_trees(l.values@),
            spec_strings(l.closing_comments@),
        ),
        TokenValue::Object(m) => SpecTokenValue::Object(
            spec_key_values(m.key_values@),
            spec_strings(m.closing_comments@),
        ),
        TokenValue::Variant(c) => SpecTokenValue::Variant(
            c.name_span,
            c.quoted_name@,
            spec_trees(c.values@),
            spec_strings(c.closing_comments@),
        ),
    }
}

/// The shape of a [`TokenTree`].
pub open spec fn spec_tree(t: TokenTree) -> SpecTokenTree
    decreases t,
{
    SpecTokenTree {
        span: t.span,
        prefix_comments: spec_strings(t.prefix_comments@),
        value: spec_value(t.value),
        suffix_comment: spec_opt_string(t.suffix_comment),
    }
}

/// How the shape of each kind of value is put together from the shapes
/// of its parts.
pub proof fn lemma_spec_value_unfold(v: TokenValue)
    ensures
        v matches TokenValue::Identifier(s) ==> spec_value(v) == SpecTokenValue::Identifier(s@),
        v matches TokenValue::Number(s) ==> spec_value(v) == SpecTokenValue::Number(s@),
        v matches TokenValue::QuotedString(s) ==> spec_value(v) == SpecTokenValue::QuotedString(
            s@,
        ),
        v matches TokenValue::List(l) ==> spec_value(v) == SpecTokenValue::List(
            spec_trees(l.values@),
            spec_strings(l.closing_comments@),
        ),
        v matches TokenValue::Object(m) ==> spec_value(v) == SpecTokenValue::Object(
            spec_key_values(m.key_values@),
            spec_strings(m.closing_comments@),
        ),
        v matches TokenValue::Variant(c) ==> spec_value(v) == SpecTokenValue::Variant(
            c.name_span,
            c.quoted_name@,
            spec_trees(c.values@),
            spec_strings(c.closing_comments@),
        ),
{
}

/// How the shape of a tree is put together from the shapes of its parts.
pub proof fn lemma_spec_tree_unfold(t: TokenTree)
    ensures
        spec_tree(t) == (SpecTokenTree {
            span: t.span,
            prefix_comments: spec_strings(t.prefix_comments@),
            value: spec_value(t.value),
            suffix_comment: spec_opt_string(t.suffix_comment),
        }),
{
}

impl View for TokenTree {
    type V = SpecTokenTree;

    open spec fn view(&self) -> SpecTokenTree {
        spec_tree(*self)
    }
}

impl View for TokenValue {
    type V = SpecTokenValue;

    open spec fn view(&self) -> SpecTokenValue {
        spec_value(*self)
    }
}

impl TokenValue {
    /// True when this value is a number literal.
    pub fn is_number(&self) -> (r: bool)
        ensures
            r == (self@ is Number),
    {
        match self {
            TokenValue::Number(_) => true,
            _ => false,
        }
    }
}

} // verus!
