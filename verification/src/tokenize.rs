//! Turning source text into a sequence of classified, spanned tokens.
//!
//! Whitespace (space, tab, newline, form feed) is skipped between tokens.
//! A byte sequence that fits no token class becomes an error entry carrying
//! its position and text, so that the parser can surface a precise
//! diagnostic; the stream itself always runs to the end of the input.
//! Tokens are matched greedily: at each position the longest token wins.

use vstd::prelude::*;

use crate::chars::{chars_to_string, push_chars, push_str_chars, str_to_chars, vec_range};
use crate::error::{Error, SpecErrorValue};
use crate::span::Span;
use crate::strings::{spec_is_ident_cont, spec_is_ident_start};
use crate::token_kind::TokenKind;

verus! {

/// The whitespace that separates tokens: space, tab, newline, form feed.
pub open spec fn spec_is_token_gap(c: char) -> bool {
    c == ' ' || c == '\t' || c == '\n' || c == '\u{0C}'
}

/// A decimal digit.
pub open spec fn spec_is_digit(c: char) -> bool {
    '0' <= c && c <= '9'
}

/// A character that can start a number token: a sign, a digit, or a
/// period.
pub open spec fn spec_is_number_start(c: char) -> bool {
    c == '+' || c == '-' || c == '.' || spec_is_digit(c)
}

/// A character that can continue a number token.
pub open spec fn spec_is_number_cont(c: char) -> bool {
    spec_is_digit(c) || ('a' <= c && c <= 'z') || ('A' <= c && c <= 'Z') || c == '.' || c == '+'
        || c == '-' || c == '_'
}

/// The first index at or after `i` that is not token-gap whitespace.
pub open spec fn spec_gap_end(s: Seq<char>, i: int) -> int
    decreases s.len() - i when 0 <= i <= s.len()
{
    if i >= s.len() || !spec_is_token_gap(s[i]) {
        i
    } else {
        spec_gap_end(s, i + 1)
    }
}

/// The first index at or after `i` that cannot continue an identifier.
pub open spec fn spec_ident_end(s: Seq<char>, i: int) -> int
    decreases s.len() - i when 0 <= i <= s.len()
{
    if i >= s.len() || !spec_is_ident_cont(s[i]) {
        i
    } else {
        spec_ident_end(s, i + 1)
    }
}

/// The first index at or after `i` that cannot continue a number.
pub open spec fn spec_number_end(s: Seq<char>, i: int) -> int
    decreases s.len() - i when 0 <= i <= s.len()
{
    if i >= s.len() || !spec_is_number_cont(s[i]) {
        i
    } else {
        spec_number_end(s, i + 1)
    }
}

/// The first index at or after `i` holding a newline, or the length.
pub open spec fn spec_line_end(s: Seq<char>, i: int) -> int
    decreases s.len() - i when 0 <= i <= s.len()
{
    if i >= s.len() || s[i] == '\n' {
        i
    } else {
        spec_line_end(s, i + 1)
    }
}

/// Scanning a single-quoted literal from just after the opening quote:
/// the index after the closing quote, if the string is terminated.
pub open spec fn spec_single_quote_end(s: Seq<char>, i: int) -> Option<int>
    decreases s.len() - i when 0 <= i <= s.len()
{
    if i >= s.len() {
        None
    } else if s[i] == '\'' {
        Some(i + 1)
    } else {
        spec_single_quote_end(s, i + 1)
    }
}

/// Scanning a double-quoted string from just after the opening quote:
/// the index after the closing quote, if the string is terminated. A
/// backslash is followed by one escaped character, which may not be a
/// newline.
pub open spec fn spec_double_quote_end(s: Seq<char>, i: int) -> Option<int>
    decreases s.len() - i when 0 <= i <= s.len()
{
    if i >= s.len() {
        None
    } else if s[i] == '"' {
        Some(i + 1)
    } else if s[i] == '\\' {
        if i + 1 < s.len() && s[i + 1] != '\n' {
            spec_double_quote_end(s, i + 2)
        } else {
            None
        }
    } else {
        spec_double_quote_end(s, i + 1)
    }
}

/// The index after the first run of three `q` characters at or after `i`,
/// if there is one.
pub open spec fn spec_triple_end(s: Seq<char>, i: int, q: char) -> Option<int>
    decreases s.len() - i when 0 <= i <= s.len()
{
    if i + 3 > s.len() {
        None
    } else if s[i] == q && s[i + 1] == q && s[i + 2] == q {
        Some(i + 3)
    } else {
        spec_triple_end(s, i + 1, q)
    }
}

pub proof fn lemma_gap_end_bounds(s: Seq<char>, i: int)
    requires
        0 <= i <= s.len(),
    ensures
        i <= spec_gap_end(s, i) <= s.len(),
        spec_gap_end(s, i) < s.len() ==> !spec_is_token_gap(s[spec_gap_end(s, i)]),
    decreases s.len() - i,
{
    if !(i >= s.len() || !spec_is_token_gap(s[i])) {
        lemma_gap_end_bounds(s, i + 1);
    }
}

pub proof fn lemma_ident_end_bounds(s: Seq<char>, i: int)
    requires
        0 <= i <= s.len(),
    ensures
        i <= spec_ident_end(s, i) <= s.len(),
    decreases s.len() - i,
{
    if !(i >= s.len() || !spec_is_ident_cont(s[i])) {
        lemma_ident_end_bounds(s, i + 1);
    }
}

pub proof fn lemma_number_end_bounds(s: Seq<char>, i: int)
    requires
        0 <= i <= s.len(),
    ensures
        i <= spec_number_end(s, i) <= s.len(),
    decreases s.len() - i,
{
    if !(i >= s.len() || !spec_is_number_cont(s[i])) {
        lemma_number_end_bounds(s, i + 1);
    }
}

pub proof fn lemma_line_end_bounds(s: Seq<char>, i: int)
    requires
        0 <= i <= s.len(),
    ensures
        i <= spec_line_end(s, i) <= s.len(),
    decreases s.len() - i,
{
    if !(i >= s.len() || s[i] == '\n') {
        lemma_line_end_bounds(s, i + 1);
    }
}

pub proof fn lemma_single_quote_end_bounds(s: Seq<char>, i: int)
    requires
        0 <= i <= s.len(),
    ensures
        spec_single_quote_end(s, i) matches Some(e) ==> i < e <= s.len(),
    decreases s.len() - i,
{
    if i < s.len() && s[i] != '\'' {
        lemma_single_quote_end_bounds(s, i + 1);
    }
}

pub proof fn lemma_double_quote_end_bounds(s: Seq<char>, i: int)
    requires
        0 <= i <= s.len(),
    ensures
        spec_double_quote_end(s, i) matches Some(e) ==> i < e <= s.len(),
    decreases s.len() - i,
{
    if i < s.len() && s[i] != '"' {
        if s[i] == '\\' {
            if i + 1 < s.len() && s[i + 1] != '\n' {
                lemma_double_quote_end_bounds(s, i + 2);
            }
        } else {
            lemma_double_quote_end_bounds(s, i + 1);
        }
    }
}

pub proof fn lemma_triple_end_bounds(s: Seq<char>, i: int, q: char)
    requires
        0 <= i <= s.len(),
    ensures
        spec_triple_end(s, i, q) matches Some(e) ==> i < e <= s.len(),
    decreases s.len() - i,
{
    if i + 3 <= s.len() && !(s[i] == q && s[i + 1] == q && s[i + 2] == q) {
        lemma_triple_end_bounds(s, i + 1, q);
    }
}

/// The token starting at `i` (which must not be whitespace): its kind
/// (`None` for text that is no token) and the index just after it.
pub open spec fn spec_token_at(s: Seq<char>, i: int) -> (Option<TokenKind>, int) {
    let c = s[i];
    if c == '/' && i + 1 < s.len() && s[i + 1] == '/' {
        (Some(TokenKind::Comment), spec_line_end(s, i + 2))
    } else if c == '[' {
        (Some(TokenKind::OpenList), i + 1)
    } else if c == ']' {
        (Some(TokenKind::CloseList), i + 1)
    } else if c == '{' {
        (Some(TokenKind::OpenBrace), i + 1)
    } else if c == '}' {
        (Some(TokenKind::CloseBrace), i + 1)
    } else if c == '(' {
        (Some(TokenKind::OpenParen), i + 1)
    } else if c == ')' {
        (Some(TokenKind::CloseParen), i + 1)
    } else if c == ':' {
        (Some(TokenKind::Colon), i + 1)
    } else if c == ',' {
        (Some(TokenKind::Comma), i + 1)
    } else if spec_is_ident_start(c) {
        (Some(TokenKind::Identifier), spec_ident_end(s, i + 1))
    } else if spec_is_number_start(c) {
        (Some(TokenKind::Number), spec_number_end(s, i + 1))
    } else if c == '"' {
        if i + 2 < s.len() && s[i + 1] == '"' && s[i + 2] == '"' {
            match spec_triple_end(s, i + 3, '"') {
                // A terminated multiline string is always the longest match.
                Some(e) => (Some(TokenKind::MultilineBasicString), e),
                // No closing triple quote: the longest match is the empty
                // string made of the first two quotes.
                None => (Some(TokenKind::DoubleQuotedString), i + 2),
            }
        } else {
            match spec_double_quote_end(s, i + 1) {
                Some(e) => (Some(TokenKind::DoubleQuotedString), e),
                // Unterminated: the rest of the input is no token.
                None => (None, s.len() as int),
            }
        }
    } else if c == '\'' {
        if i + 2 < s.len() && s[i + 1] == '\'' && s[i + 2] == '\'' {
            match spec_triple_end(s, i + 3, '\'') {
                Some(e) => (Some(TokenKind::MultilineLiteralString), e),
                None => (Some(TokenKind::SingleQuotedString), i + 2),
            }
        } else {
            match spec_single_quote_end(s, i + 1) {
                Some(e) => (Some(TokenKind::SingleQuotedString), e),
                None => (None, s.len() as int),
            }
        }
    } else {
        (None, i + 1)
    }
}

/// The end of the token starting at `i` lies strictly after `i` and
/// within the text.
pub proof fn lemma_token_at_bounds(s: Seq<char>, i: int)
    requires
        0 <= i < s.len(),
        !spec_is_token_gap(s[i]),
    ensures
        i < spec_token_at(s, i).1 <= s.len(),
{
    if i + 2 <= s.len() {
        lemma_line_end_bounds(s, i + 2);
    }
    lemma_ident_end_bounds(s, i + 1);
    lemma_number_end_bounds(s, i + 1);
    if i + 3 <= s.len() {
        lemma_triple_end_bounds(s, i + 3, '"');
        lemma_triple_end_bounds(s, i + 3, '\'');
    }
    lemma_double_quote_end_bounds(s, i + 1);
    lemma_single_quote_end_bounds(s, i + 1);
}

/// One token of the stream, as mathematics: where it lies and what kind
/// it is (`None` for text that is no token).
pub struct SpecTok {
    pub start: int,
    pub end: int,
    pub kind: Option<TokenKind>,
}

/// The whole token stream of `s`, starting at position `i`.
pub open spec fn spec_tokens(s: Seq<char>, i: int) -> Seq<SpecTok>
    decreases s.len() - i when 0 <= i <= s.len() via spec_tokens_decreases
{
    let w = spec_gap_end(s, i);
    if w >= s.len() {
        Seq::empty()
    } else {
        let (k, e) = spec_token_at(s, w);
        seq![SpecTok { start: w, end: e, kind: k }] + spec_tokens(s, e)
    }
}

#[via_fn]
proof fn spec_tokens_decreases(s: Seq<char>, i: int) {
    lemma_gap_end_bounds(s, i);
    let w = spec_gap_end(s, i);
    if w < s.len() {
        lemma_token_at_bounds(s, w);
    }
}

/// A classified token with its place in the source text.
#[derive(Debug)]
pub struct PlacedToken {
    /// The range of the token in the source text.
    pub span: Span,
    /// The text of the token.
    pub slice: String,
    /// The token kind.
    pub kind: TokenKind,
}

/// A token, or the error for a piece of text that is no token.
#[derive(Debug)]
pub struct PlacedTokenResult {
    /// The range of the token in the source text.
    pub span: Span,
    /// The text of the token.
    pub slice: String,
    /// The token kind, or the error carried by an invalid token.
    pub kind: Result<TokenKind, Error>,
}

/// Where a token lies and what kind it is, with an error read as `None`.
pub open spec fn spec_tok_of(t: PlacedTokenResult) -> SpecTok {
    SpecTok {
        start: t.span.start as int,
        end: t.span.end as int,
        kind: match t.kind {
            Ok(k) => Some(k),
            Err(_) => None,
        },
    }
}

/// The places and kinds of a sequence of tokens.
pub open spec fn spec_toks_of(ts: Seq<PlacedTokenResult>) -> Seq<SpecTok>
    decreases ts,
{
    if ts.len() == 0 {
        Seq::empty()
    } else {
        spec_toks_of(ts.subrange(0, ts.len() - 1)).push(spec_tok_of(ts[ts.len() - 1]))
    }
}

/// `spec_toks_of` maps `spec_tok_of` over the sequence, element by
/// element.
pub proof fn lemma_spec_toks_of(ts: Seq<PlacedTokenResult>)
    ensures
        spec_toks_of(ts).len() == ts.len(),
        forall|i: int| 0 <= i < ts.len() ==> spec_toks_of(ts)[i] == spec_tok_of(ts[i]),
    decreases ts.len(),
{
    if ts.len() > 0 {
        lemma_spec_toks_of(ts.subrange(0, ts.len() - 1));
    }
}

/// The message of the error carried by an invalid token with text
/// `slice`.
pub open spec fn spec_invalid_token_msg(slice: Seq<char>) -> Seq<char> {
    "Invalid token: '"@ + slice + "'"@
}

/// Every token of `ts` agrees with the source text `s`: its span is a
/// well-formed range into `s`, its slice is the text of that range, and
/// an invalid token carries the error naming that text.
pub open spec fn spec_tokens_wf(ts: Seq<PlacedTokenResult>, s: Seq<char>) -> bool {
    forall|i: int|
        0 <= i < ts.len() ==> {
            let t = #[trigger] ts[i];
            &&& t.span.start <= t.span.end <= s.len()
            &&& t.slice@ == s.subrange(t.span.start as int, t.span.end as int)
            &&& (t.kind matches Err(e) ==> e@ == (SpecErrorValue::At {
                source: s,
                span: t.span,
                msg: spec_invalid_token_msg(t.slice@),
            }))
        }
}

/// The first position at or after `i` that is not token-gap whitespace.
fn scan_gap_end(v: &Vec<char>, i: usize) -> (r: usize)
    requires
        i <= v@.len(),
    ensures
        r == spec_gap_end(v@, i as int),
        i <= r <= v@.len(),
        r < v@.len() ==> !spec_is_token_gap(v@[r as int]),
{
    let n = v.len();
    let mut j: usize = i;
    loop
        invariant
            i <= j <= n == v@.len(),
            spec_gap_end(v@, i as int) == spec_gap_end(v@, j as int),
        decreases n - j,
    {
        if j >= n {
            return j;
        }
        let c = v[j];
        if !(c == ' ' || c == '\t' || c == '\n' || c == '\u{0C}') {
            return j;
        }
        j = j + 1;
    }
}

/// The first position at or after `i` that cannot continue an
/// identifier.
fn scan_ident_end(v: &Vec<char>, i: usize) -> (r: usize)
    requires
        i <= v@.len(),
    ensures
        r == spec_ident_end(v@, i as int),
        i <= r <= v@.len(),
{
    let n = v.len();
    let mut j: usize = i;
    loop
        invariant
            i <= j <= n == v@.len(),
            spec_ident_end(v@, i as int) == spec_ident_end(v@, j as int),
        decreases n - j,
    {
        if j >= n {
            return j;
        }
        let c = v[j];
        if !(('a' <= c && c <= 'z') || ('A' <= c && c <= 'Z') || ('0' <= c && c <= '9') || c
            == '_') {
            return j;
        }
        j = j + 1;
    }
}

/// The first position at or after `i` that cannot continue a number.
fn scan_number_end(v: &Vec<char>, i: usize) -> (r: usize)
    requires
        i <= v@.len(),
    ensures
        r == spec_number_end(v@, i as int),
        i <= r <= v@.len(),
{
    let n = v.len();
    let mut j: usize = i;
    loop
        invariant
            i <= j <= n == v@.len(),
            spec_number_end(v@, i as int) == spec_number_end(v@, j as int),
        decreases n - j,
    {
        if j >= n {
            return j;
        }
        let c = v[j];
        if !(('0' <= c && c <= '9') || ('a' <= c && c <= 'z') || ('A' <= c && c <= 'Z') || c
            == '.' || c == '+' || c == '-' || c == '_') {
            return j;
        }
        j = j + 1;
    }
}

/// The first position at or after `i` holding a newline, or the length.
fn scan_line_end(v: &Vec<char>, i: usize) -> (r: usize)
    requires
        i <= v@.len(),
    ensures
        r == spec_line_end(v@, i as int),
        i <= r <= v@.len(),
{
    let n = v.len();
    let mut j: usize = i;
    while j < n && v[j] != '\n'
        invariant
            i <= j <= n == v@.len(),
            spec_line_end(v@, i as int) == spec_line_end(v@, j as int),
        decreases n - j,
    {
        j = j + 1;
    }
    j
}

/// Scan a single-quoted literal from just after the opening quote.
fn scan_single_quote_end(v: &Vec<char>, i: usize) -> (r: Option<usize>)
    requires
        i <= v@.len(),
    ensures
        match r {
            Some(e) => spec_single_quote_end(v@, i as int) == Some(e as int) && i < e <= v@.len(),
            None => spec_single_quote_end(v@, i as int) is None,
        },
{
    let n = v.len();
    let mut j: usize = i;
    while j < n && v[j] != '\''
        invariant
            i <= j <= n == v@.len(),
            spec_single_quote_end(v@, i as int) == spec_single_quote_end(v@, j as int),
        decreases n - j,
    {
        j = j + 1;
    }
    if j < n {
        Some(j + 1)
    } else {
        None
    }
}

/// Scan a double-quoted string from just after the opening quote.
fn scan_double_quote_end(v: &Vec<char>, i: usize) -> (r: Option<usize>)
    requires
        i <= v@.len(),
    ensures
        match r {
            Some(e) => spec_double_quote_end(v@, i as int) == Some(e as int) && i < e <= v@.len(),
            None => spec_double_quote_end(v@, i as int) is None,
        },
{
    let n = v.len();
    let mut j: usize = i;
    loop
        invariant
            i <= j <= n == v@.len(),
            spec_double_quote_end(v@, i as int) == spec_double_quote_end(v@, j as int),
        decreases n - j,
    {
        if j >= n {
            return None;
        }
        let c = v[j];
        if c == '"' {
            return Some(j + 1);
        } else if c == '\\' {
            if j + 1 < n && v[j + 1] != '\n' {
                j = j + 2;
            } else {
                return None;
            }
        } else {
            j = j + 1;
        }
    }
}

/// The position after the first run of three `q` characters at or after
/// `i`, if there is one.
fn scan_triple_end(v: &Vec<char>, i: usize, q: char) -> (r: Option<usize>)
    requires
        i <= v@.len(),
    ensures
        match r {
            Some(e) => spec_triple_end(v@, i as int, q) == Some(e as int) && i < e <= v@.len(),
            None => spec_triple_end(v@, i as int, q) is None,
        },
{
    let n = v.len();
    let mut j: usize = i;
    loop
        invariant
            i <= j <= n == v@.len(),
            spec_triple_end(v@, i as int, q) == spec_triple_end(v@, j as int, q),
        decreases n - j,
    {
        if j >= n || n - j < 3 {
            return None;
        }
        if v[j] == q && v[j + 1] == q && v[j + 2] == q {
            return Some(j + 3);
        }
        j = j + 1;
    }
}

/// Tokenize the whole source text.
///
/// The result holds one entry for every token of the text, in order; a
/// piece of text that is no token yields an entry whose `kind` carries
/// the "invalid token" error for its span.
pub fn tokenize(source: &str) -> (toks: Vec<PlacedTokenResult>)
    ensures
        spec_toks_of(toks@) == spec_tokens(source@, 0),
        spec_tokens_wf(toks@, source@),
{
    let v = str_to_chars(source);
    let ghost s = source@;
    let n = v.len();
    let mut toks: Vec<PlacedTokenResult> = Vec::new();
    let mut pos: usize = 0;
    loop
        invariant
            pos <= n == s.len(),
            v@ == s,
            s == source@,
            spec_tokens(s, 0) == spec_toks_of(toks@) + spec_tokens(s, pos as int),
            spec_tokens_wf(toks@, s),
        decreases n - pos,
    {
        // Skip whitespace between tokens.
        let next = scan_gap_end(&v, pos);
        proof {
            assert(spec_gap_end(s, next as int) == next as int);
            assert(spec_tokens(s, pos as int) == spec_tokens(s, next as int));
        }
        pos = next;
        if pos >= n {
            proof {
                assert(spec_tokens(s, pos as int) == Seq::<SpecTok>::empty());
                assert(spec_toks_of(toks@) + Seq::<SpecTok>::empty() =~= spec_toks_of(toks@));
            }
            return toks;
        }
        let ghost before = toks@;
        let start = pos;
        let c = v[start];
        assert(!spec_is_token_gap(s[start as int]));
        let (kind, end): (Option<TokenKind>, usize) = if c == '/' && n - start > 1 && v[start + 1]
            == '/' {
            (Some(TokenKind::Comment), scan_line_end(&v, start + 2))
        } else if c == '[' {
            (Some(TokenKind::OpenList), start + 1)
        } else if c == ']' {
            (Some(TokenKind::CloseList), start + 1)
        } else if c == '{' {
            (Some(TokenKind::OpenBrace), start + 1)
        } else if c == '}' {
            (Some(TokenKind::CloseBrace), start + 1)
        } else if c == '(' {
            (Some(TokenKind::OpenParen), start + 1)
        } else if c == ')' {
            (Some(TokenKind::CloseParen), start + 1)
        } else if c == ':' {
            (Some(TokenKind::Colon), start + 1)
        } else if c == ',' {
            (Some(TokenKind::Comma), start + 1)
        } else if ('a' <= c && c <= 'z') || ('A' <= c && c <= 'Z') || c == '_' {
            (Some(TokenKind::Identifier), scan_ident_end(&v, start + 1))
        } else if c == '+' || c == '-' || c == '.' || ('0' <= c && c <= '9') {
            (Some(TokenKind::Number), scan_number_end(&v, start + 1))
        } else if c == '"' {
            if n - start > 2 && v[start + 1] == '"' && v[start + 2] == '"' {
                match scan_triple_end(&v, start + 3, '"') {
                    Some(e) => (Some(TokenKind::MultilineBasicString), e),
                    None => (Some(TokenKind::DoubleQuotedString), start + 2),
                }
            } else {
                match scan_double_quote_end(&v, start + 1) {
                    Some(e) => (Some(TokenKind::DoubleQuotedString), e),
                    None => (None, n),
                }
            }
        } else if c == '\'' {
            if n - start > 2 && v[start + 1] == '\'' && v[start + 2] == '\'' {
                match scan_triple_end(&v, start + 3, '\'') {
                    Some(e) => (Some(TokenKind::MultilineLiteralString), e),
                    None => (Some(TokenKind::SingleQuotedString), start + 2),
                }
            } else {
                match scan_single_quote_end(&v, start + 1) {
                    Some(e) => (Some(TokenKind::SingleQuotedString), e),
                    None => (None, n),
                }
            }
        } else {
            (None, start + 1)
        };
        assert(spec_token_at(s, start as int) == (kind, end as int));
        let span = Span { start, end };
        let slice_chars = vec_range(&v, start, end);
        let slice = chars_to_string(&slice_chars);
        let tok = match kind {
            Some(k) => PlacedTokenResult { span, slice, kind: Ok(k) },
            None => {
                let mut m: Vec<char> = Vec::new();
                push_str_chars(&mut m, "Invalid token: '");
                push_chars(&mut m, &slice_chars);
                push_str_chars(&mut m, "'");
                proof {
                    assert(m@ =~= spec_invalid_token_msg(slice@));
                }
                let message = chars_to_string(&m);
                let err = Error::new_at(source, span, message);
                PlacedTokenResult { span, slice, kind: Err(err) }
            },
        };
        proof {
            lemma_spec_toks_of(before);
            lemma_spec_toks_of(before.push(tok));
            assert(before.push(tok).subrange(0, before.len() as int) =~= before);
            assert(spec_toks_of(before.push(tok)) =~= spec_toks_of(before).push(spec_tok_of(tok)));
            assert(spec_gap_end(s, pos as int) == pos as int);
            assert(spec_tokens(s, pos as int) == seq![spec_tok_of(tok)] + spec_tokens(
                s,
                end as int,
            ));
            assert(spec_toks_of(before) + (seq![spec_tok_of(tok)] + spec_tokens(s, end as int))
                =~= spec_toks_of(before).push(spec_tok_of(tok)) + spec_tokens(s, end as int));
        }
        toks.push(tok);
        pos = end;
        proof {
            assert forall|i: int| 0 <= i < toks@.len() implies {
                let t = #[trigger] toks@[i];
                &&& t.span.start <= t.span.end <= s.len()
                &&& t.slice@ == s.subrange(t.span.start as int, t.span.end as int)
                &&& (t.kind matches Err(e) ==> e@ == (SpecErrorValue::At {
                    source: s,
                    span: t.span,
                    msg: spec_invalid_token_msg(t.slice@),
                }))
            } by {
                if i < toks@.len() - 1 {
                    assert(toks@[i] == before[i]);
                }
            }
        }
    }
}

impl PlacedTokenResult {
    /// Returns the inner token, or the error if the token is invalid.
    pub fn ok(self) -> (r: Result<PlacedToken, Error>)
        ensures
            match r {
                Ok(t) => self.kind matches Ok(k) && t.span == self.span && t.slice@ == self.slice@
                    && t.kind == k,
                Err(e) => self.kind matches Err(e0) && e@ == e0@,
            },
    {
        match self.kind {
            Ok(token) => Ok(PlacedToken { span: self.span, slice: self.slice, kind: token }),
            Err(err) => Err(err),
        }
    }
}

} // verus!
