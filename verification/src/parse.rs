//! Convert tokens into a token tree using a recursive descent parser.
//!
//! The grammar is ambiguous at the top level: a file is usually a bare
//! sequence of `key: value` pairs without surrounding braces, but may also
//! be a single value, or a bare sequence of values. The parser tries the
//! alternatives and keeps the one that parses furthest.

use vstd::prelude::*;

use crate::chars::{chars_to_string, push_str_chars, str_to_chars};
use crate::error::{Error, SpecErrorValue};
use crate::span::Span;
use crate::token_kind::{spec_describe, TokenKind};
use crate::token_tree::{
    lemma_spec_strings_push, spec_key_values, spec_opt_string, spec_strings, spec_tree,
    spec_trees, SpecTokenKeyValue, SpecTokenTree, SpecTokenValue, TokenKeyValue, TokenList,
    TokenMap, TokenTree, TokenValue, TokenVariant,
};
use crate::tokenize::{
    lemma_spec_toks_of, spec_tok_of, spec_tokens_wf, spec_toks_of, tokenize, PlacedTokenResult,
    SpecTok,
};

verus! {

/// Protection against stack overflow in the recursive descent parser.
pub const MAX_RECURSION_DEPTH: usize = 128;

/// The text of the token `t` within the source text `s`.
pub open spec fn spec_slice(s: Seq<char>, t: SpecTok) -> Seq<char> {
    s.subrange(t.start, t.end)
}

/// The span of the token just before position `p`, or the zero span when
/// nothing was consumed yet.
pub open spec fn spec_prev_span(toks: Seq<SpecTok>, p: int) -> Span {
    if p <= 0 || p > toks.len() {
        Span { start: 0, end: 0 }
    } else {
        Span { start: toks[p - 1].start as usize, end: toks[p - 1].end as usize }
    }
}

/// The end offset of the token just before position `p`: how far a parse
/// that stands at `p` has consumed.
pub open spec fn spec_consumed_end(toks: Seq<SpecTok>, p: int) -> int {
    spec_prev_span(toks, p).end as int
}

/// The error for an invalid token.
pub open spec fn spec_invalid_token_error(s: Seq<char>, t: SpecTok) -> SpecErrorValue {
    SpecErrorValue::At {
        source: s,
        span: Span { start: t.start as usize, end: t.end as usize },
        msg: crate::tokenize::spec_invalid_token_msg(spec_slice(s, t)),
    }
}

/// An error at a span of the source text.
pub open spec fn spec_error_at(s: Seq<char>, span: Span, msg: Seq<char>) -> SpecErrorValue {
    SpecErrorValue::At { source: s, span, msg }
}

/// Whether `s[from..to]` holds a newline.
pub open spec fn spec_range_has_newline(s: Seq<char>, from: int, to: int) -> bool {
    exists|i: int| from <= i < to && s[i] == '\n'
}

/// A token kind that closes a list, map or variant.
pub open spec fn spec_is_closing(k: TokenKind) -> bool {
    k == TokenKind::CloseBrace || k == TokenKind::CloseList || k == TokenKind::CloseParen
}

/// Collecting consecutive comment tokens from position `pos`: their
/// texts, and the position of the first token that is no comment.
pub open spec fn spec_parse_comments(s: Seq<char>, toks: Seq<SpecTok>, pos: int) -> (
    Seq<Seq<char>>,
    int,
)
    decreases toks.len() - pos when 0 <= pos <= toks.len()
{
    if pos >= toks.len() {
        (Seq::empty(), pos)
    } else if toks[pos].kind == Some(TokenKind::Comment) {
        let (rest, p) = spec_parse_comments(s, toks, pos + 1);
        (seq![spec_slice(s, toks[pos])] + rest, p)
    } else {
        (Seq::empty(), pos)
    }
}

/// The position after the comments lies between `pos` and the number of
/// tokens, and its token (if any) is no comment.
pub proof fn lemma_parse_comments_bounds(s: Seq<char>, toks: Seq<SpecTok>, pos: int)
    requires
        0 <= pos <= toks.len(),
    ensures
        pos <= spec_parse_comments(s, toks, pos).1 <= toks.len(),
        spec_parse_comments(s, toks, pos).1 < toks.len() ==> toks[spec_parse_comments(
            s,
            toks,
            pos,
        ).1].kind != Some(TokenKind::Comment),
    decreases toks.len() - pos,
{
    if pos < toks.len() && toks[pos].kind == Some(TokenKind::Comment) {
        lemma_parse_comments_bounds(s, toks, pos + 1);
    }
}

/// A comment token directly after position `pos` that sits on the same
/// line as the last consumed token: its text and the position after it;
/// otherwise nothing and `pos` unchanged.
pub open spec fn spec_parse_suffix_comment(s: Seq<char>, toks: Seq<SpecTok>, pos: int) -> (
    Option<Seq<char>>,
    int,
) {
    if pos < 0 || pos >= toks.len() {
        (None, pos)
    } else if toks[pos].kind != Some(TokenKind::Comment) {
        (None, pos)
    } else if spec_range_has_newline(s, spec_consumed_end(toks, pos), toks[pos].start) {
        // The comment is not on the same line.
        (None, pos)
    } else {
        (Some(spec_slice(s, toks[pos])), pos + 1)
    }
}

/// Consuming one token that must be of kind `expected`: the position
/// after it, or the error and how far the parse had consumed.
pub open spec fn spec_consume_token(
    s: Seq<char>,
    toks: Seq<SpecTok>,
    pos: int,
    expected: TokenKind,
) -> Result<int, (SpecErrorValue, int)> {
    if pos < 0 || pos >= toks.len() {
        Err(
            (
                spec_error_at(
                    s,
                    spec_prev_span(toks, pos),
                    "Expected "@ + spec_describe(expected) + " but reached end of input"@,
                ),
                spec_consumed_end(toks, pos),
            ),
        )
    } else {
        match toks[pos].kind {
            None => Err((spec_invalid_token_error(s, toks[pos]), toks[pos].end)),
            Some(k) => {
                if k == expected {
                    Ok(pos + 1)
                } else {
                    Err(
                        (
                            spec_error_at(
                                s,
                                Span { start: toks[pos].start as usize, end: toks[pos].end as usize },
                                "Expected "@ + spec_describe(expected) + " but found "@
                                    + spec_describe(k),
                            ),
                            toks[pos].end,
                        ),
                    )
                }
            },
        }
    }
}

/// The result of a parse that got stuck in a state the grammar cannot
/// reach; it stands in branches that are proved unreachable.
pub open spec fn spec_parse_stuck<T>() -> Result<(T, int), (SpecErrorValue, int)> {
    Err((SpecErrorValue::Custom { msg: Seq::empty() }, 0))
}

/// Parsing a value at position `pos`, with its prefix and suffix
/// comments: the tree and the position after it, or the error and how far
/// the parse had consumed.
pub open spec fn spec_parse_token_tree(s: Seq<char>, toks: Seq<SpecTok>, pos: int, depth: int)
    -> Result<(SpecTokenTree, int), (SpecErrorValue, int)>
    decreases toks.len() - pos, MAX_RECURSION_DEPTH + 2 - depth, 2int
        when 0 <= pos <= toks.len() && 0 <= depth <= MAX_RECURSION_DEPTH + 1
        via spec_parse_token_tree_decreases
{
    if depth >= MAX_RECURSION_DEPTH {
        Err(
            (
                spec_error_at(
                    s,
                    spec_prev_span(toks, pos),
                    "Maximum recursion depth exceeded while parsing document"@,
                ),
                spec_consumed_end(toks, pos),
            ),
        )
    } else {
        let (prefix_comments, p1) = spec_parse_comments(s, toks, pos);
        if p1 >= toks.len() {
            Err(
                (
                    spec_error_at(
                        s,
                        Span { start: s.len() as usize, end: s.len() as usize },
                        "Unexpected end of input: expected a value"@,
                    ),
                    spec_consumed_end(toks, p1),
                ),
            )
        } else {
            let tok = toks[p1];
            match tok.kind {
                None => Err((spec_invalid_token_error(s, tok), tok.end)),
                Some(kind) => {
                    let start_span = Span { start: tok.start as usize, end: tok.end as usize };
                    match spec_parse_value(s, toks, p1, depth, kind) {
                        Err(e) => Err(e),
                        Ok((value, p2)) => {
                            let span = start_span.spec_union(spec_prev_span(toks, p2));
                            let (suffix_comment, p3) = spec_parse_suffix_comment(s, toks, p2);
                            Ok(
                                (
                                    SpecTokenTree {
                                        span: Some(span),
                                        prefix_comments,
                                        value,
                                        suffix_comment,
                                    },
                                    p3,
                                ),
                            )
                        },
                    }
                },
            }
        }
    }
}

/// Parsing the value whose first token (of kind `kind`) stands at `pos`:
/// the value and the position after it.
pub open spec fn spec_parse_value(
    s: Seq<char>,
    toks: Seq<SpecTok>,
    pos: int,
    depth: int,
    kind: TokenKind,
) -> Result<(SpecTokenValue, int), (SpecErrorValue, int)>
    decreases toks.len() - pos, MAX_RECURSION_DEPTH + 2 - depth, 1int
        when 0 <= pos < toks.len() && 0 <= depth < MAX_RECURSION_DEPTH
        via spec_parse_value_decreases
{
    let tok = toks[pos];
    let p = pos + 1;
    if kind == TokenKind::OpenList {
        match spec_parse_list_contents(s, toks, p, depth + 1) {
            Err(e) => Err(e),
            Ok(((values, closing_comments), p2)) => {
                match spec_consume_token(s, toks, p2, TokenKind::CloseList) {
                    Err(e) => Err(e),
                    Ok(p3) => Ok((SpecTokenValue::List(values, closing_comments), p3)),
                }
            },
        }
    } else if kind == TokenKind::OpenBrace {
        match spec_parse_map_contents(s, toks, p, depth + 1) {
            Err(e) => Err(e),
            Ok(((key_values, closing_comments), p2)) => {
                match spec_consume_token(s, toks, p2, TokenKind::CloseBrace) {
                    Err(e) => Err(e),
                    Ok(p3) => Ok((SpecTokenValue::Object(key_values, closing_comments), p3)),
                }
            },
        }
    } else if kind == TokenKind::Identifier {
        Ok((SpecTokenValue::Identifier(spec_slice(s, tok)), p))
    } else if kind == TokenKind::Number {
        Ok((SpecTokenValue::Number(spec_slice(s, tok)), p))
    } else if kind == TokenKind::DoubleQuotedString || kind == TokenKind::SingleQuotedString
        || kind == TokenKind::MultilineBasicString || kind == TokenKind::MultilineLiteralString {
        // A free-floating string, or the opening of a variant like
        // `"Rgb"(…)`.
        if p < toks.len() && toks[p].kind == Some(TokenKind::OpenParen) {
            match spec_parse_list_contents(s, toks, p + 1, depth + 1) {
                Err(e) => Err(e),
                Ok(((values, closing_comments), p2)) => {
                    match spec_consume_token(s, toks, p2, TokenKind::CloseParen) {
                        Err(e) => Err(e),
                        Ok(p3) => Ok(
                            (
                                SpecTokenValue::Variant(
                                    Some(
                                        Span {
                                            start: tok.start as usize,
                                            end: tok.end as usize,
                                        },
                                    ),
                                    spec_slice(s, tok),
                                    values,
                                    closing_comments,
                                ),
                                p3,
                            ),
                        ),
                    }
                },
            }
        } else {
            // Just a string, not a variant.
            Ok((SpecTokenValue::QuotedString(spec_slice(s, tok)), p))
        }
    } else if kind == TokenKind::CloseList {
        Err(
            (
                spec_error_at(
                    s,
                    Span { start: tok.start as usize, end: tok.end as usize },
                    "Unbalanced brackets"@,
                ),
                tok.end,
            ),
        )
    } else if kind == TokenKind::CloseBrace {
        Err(
            (
                spec_error_at(
                    s,
                    Span { start: tok.start as usize, end: tok.end as usize },
                    "Unbalanced braces"@,
                ),
                tok.end,
            ),
        )
    } else if kind == TokenKind::CloseParen {
        Err(
            (
                spec_error_at(
                    s,
                    Span { start: tok.start as usize, end: tok.end as usize },
                    "Unbalanced parentheses"@,
                ),
                tok.end,
            ),
        )
    } else if kind == TokenKind::OpenParen {
        Err(
            (
                spec_error_at(
                    s,
                    Span { start: tok.start as usize, end: tok.end as usize },
                    "Parentheses must be proceeded by a string"@,
                ),
                tok.end,
            ),
        )
    } else {
        // Colon, Comma, or a comment (which the caller has already ruled
        // out): no value can start here.
        Err(
            (
                spec_error_at(
                    s,
                    Span { start: tok.start as usize, end: tok.end as usize },
                    "Expected a value, like a map, list, number, or string"@,
                ),
                tok.end,
            ),
        )
    }
}

/// Parsing the inside of a list, without the opening or closing
/// brackets: the values and the closing comments, and the position of the
/// closing token.
pub open spec fn spec_parse_list_contents(s: Seq<char>, toks: Seq<SpecTok>, pos: int, depth: int)
    -> Result<((Seq<SpecTokenTree>, Seq<Seq<char>>), int), (SpecErrorValue, int)>
    decreases toks.len() - pos, MAX_RECURSION_DEPTH + 2 - depth, 0int
        when 0 <= pos <= toks.len() && 0 <= depth <= MAX_RECURSION_DEPTH
        via spec_parse_list_contents_decreases
{
    let (prefix_comments, p1) = spec_parse_comments(s, toks, pos);
    if p1 >= toks.len() || (toks[p1].kind matches Some(k) && spec_is_closing(k)) {
        Ok(((Seq::empty(), prefix_comments), p1))
    } else {
        match spec_parse_token_tree(s, toks, p1, depth + 1) {
            Err(e) => Err(e),
            Ok((tree0, p2)) => {
                let tree1 = SpecTokenTree {
                    prefix_comments: prefix_comments + tree0.prefix_comments,
                    ..tree0
                };
                let (tree2, p3) = if p2 < toks.len() && toks[p2].kind == Some(TokenKind::Comma) {
                    // Consume the optional comma; a comment on the same
                    // line then attaches to the value just parsed.
                    let (suffix, p) = spec_parse_suffix_comment(s, toks, p2 + 1);
                    (SpecTokenTree { suffix_comment: suffix, ..tree1 }, p)
                } else {
                    (tree1, p2)
                };
                if pos < p3 <= toks.len() {
                    match spec_parse_list_contents(s, toks, p3, depth) {
                        Err(e) => Err(e),
                        Ok(((values, closing_comments), p4)) => Ok(
                            ((seq![tree2] + values, closing_comments), p4),
                        ),
                    }
                } else {
                    spec_parse_stuck()
                }
            },
        }
    }
}

/// Parsing the inside of a map, without the opening or closing braces:
/// the key-value pairs and the closing comments, and the position of the
/// closing token.
pub open spec fn spec_parse_map_contents(s: Seq<char>, toks: Seq<SpecTok>, pos: int, depth: int)
    -> Result<((Seq<SpecTokenKeyValue>, Seq<Seq<char>>), int), (SpecErrorValue, int)>
    decreases toks.len() - pos, MAX_RECURSION_DEPTH + 2 - depth, 0int
        when 0 <= pos <= toks.len() && 0 <= depth <= MAX_RECURSION_DEPTH
        via spec_parse_map_contents_decreases
{
    let (prefix_comments, p1) = spec_parse_comments(s, toks, pos);
    if p1 >= toks.len() || (toks[p1].kind matches Some(k) && spec_is_closing(k)) {
        Ok(((Seq::empty(), prefix_comments), p1))
    } else {
        match spec_parse_token_tree(s, toks, p1, depth + 1) {
            Err(e) => Err(e),
            Ok((key0, p2)) => {
                let key = SpecTokenTree { prefix_comments, ..key0 };
                match spec_consume_token(s, toks, p2, TokenKind::Colon) {
                    Err(e) => Err(e),
                    Ok(p3) => {
                        if pos < p3 <= toks.len() {
                            match spec_parse_token_tree(s, toks, p3, depth + 1) {
                                Err(e) => Err(e),
                                Ok((value0, p4)) => {
                                    let (value, p5) = if p4 < toks.len() && toks[p4].kind == Some(
                                        TokenKind::Comma,
                                    ) {
                                        let (suffix, p) = spec_parse_suffix_comment(
                                            s,
                                            toks,
                                            p4 + 1,
                                        );
                                        (SpecTokenTree { suffix_comment: suffix, ..value0 }, p)
                                    } else {
                                        (value0, p4)
                                    };
                                    if pos < p5 <= toks.len() {
                                        match spec_parse_map_contents(s, toks, p5, depth) {
                                            Err(e) => Err(e),
                                            Ok(((key_values, closing_comments), p6)) => Ok(
                                                (
                                                    (
                                                        seq![SpecTokenKeyValue { key, value }]
                                                            + key_values,
                                                        closing_comments,
                                                    ),
                                                    p6,
                                                ),
                                            ),
                                        }
                                    } else {
                                        spec_parse_stuck()
                                    }
                                },
                            }
                        } else {
                            spec_parse_stuck()
                        }
                    },
                }
            },
        }
    }
}

#[via_fn]
proof fn spec_parse_token_tree_decreases(s: Seq<char>, toks: Seq<SpecTok>, pos: int, depth: int) {
    lemma_parse_comments_bounds(s, toks, pos);
}

#[via_fn]
proof fn spec_parse_value_decreases(
    s: Seq<char>,
    toks: Seq<SpecTok>,
    pos: int,
    depth: int,
    kind: TokenKind,
) {
}

#[via_fn]
proof fn spec_parse_list_contents_decreases(
    s: Seq<char>,
    toks: Seq<SpecTok>,
    pos: int,
    depth: int,
) {
    lemma_parse_comments_bounds(s, toks, pos);
}

#[via_fn]
proof fn spec_parse_map_contents_decreases(
    s: Seq<char>,
    toks: Seq<SpecTok>,
    pos: int,
    depth: int,
) {
    lemma_parse_comments_bounds(s, toks, pos);
}

/// Checking that nothing but the end of the input follows position
/// `pos`.
pub open spec fn spec_check_trailing(s: Seq<char>, toks: Seq<SpecTok>, pos: int) -> Result<
    int,
    (SpecErrorValue, int),
> {
    if pos < 0 || pos >= toks.len() {
        Ok(pos)
    } else {
        match toks[pos].kind {
            None => Err((spec_invalid_token_error(s, toks[pos]), toks[pos].end)),
            Some(_) => Err(
                (
                    spec_error_at(
                        s,
                        Span {
                            start: toks[pos].start as usize,
                            end: toks[pos].end as usize,
                        },
                        "Expected end of file here"@,
                    ),
                    toks[pos].end,
                ),
            ),
        }
    }
}

/// Parsing a whole document. A bare sequence of `key: value` pairs is
/// tried first; failing that, a bare sequence of values (a single value
/// stands for itself); when both fail, the error of the attempt that
/// consumed more input is kept.
pub open spec fn spec_parse_top(s: Seq<char>) -> Result<SpecTokenTree, SpecErrorValue> {
    let toks = crate::tokenize::spec_tokens(s, 0);
    let whole_span = Span { start: 0, end: s.len() as usize };
    match spec_parse_map_contents(s, toks, 0, 0) {
        Ok(((key_values, closing_comments), p)) => {
            // The usual case: a bare sequence of `key: value` pairs.
            match spec_check_trailing(s, toks, p) {
                Err((e, _)) => Err(e),
                Ok(_) => Ok(
                    SpecTokenTree {
                        span: Some(whole_span),
                        prefix_comments: Seq::empty(),
                        value: SpecTokenValue::Object(key_values, closing_comments),
                        suffix_comment: None,
                    },
                ),
            }
        },
        Err((err_a, end_a)) => {
            // Maybe the file is wrapped in braces, or is not a map at all.
            match spec_parse_list_contents(s, toks, 0, 0) {
                Ok(((values, closing_comments), p)) => {
                    match spec_check_trailing(s, toks, p) {
                        Err((e, _)) => Err(e),
                        Ok(_) => {
                            if values.len() == 1 {
                                // A file containing a single value, e.g.
                                // `42` or `{…}`.
                                Ok(values[0])
                            } else {
                                Ok(
                                    SpecTokenTree {
                                        span: Some(whole_span),
                                        prefix_comments: Seq::empty(),
                                        value: SpecTokenValue::List(values, closing_comments),
                                        suffix_comment: None,
                                    },
                                )
                            }
                        },
                    }
                },
                Err((err_b, end_b)) => {
                    // Keep the error of the attempt that got further.
                    if end_a < end_b {
                        Err(err_b)
                    } else {
                        Err(err_a)
                    }
                },
            }
        },
    }
}

/// A run of `n` opening brackets.
pub open spec fn spec_open_brackets(n: nat) -> Seq<char> {
    Seq::new(n, |i: int| '[')
}

/// Tokenizing a run of opening brackets gives one token per bracket.
proof fn lemma_open_bracket_tokens(n: nat, i: int)
    requires
        0 <= i <= n,
    ensures
        crate::tokenize::spec_tokens(spec_open_brackets(n), i).len() == n - i,
        forall|k: int|
            0 <= k < n - i ==> crate::tokenize::spec_tokens(spec_open_brackets(n), i)[k]
                == (SpecTok { start: i + k, end: i + k + 1, kind: Some(TokenKind::OpenList) }),
    decreases n - i,
{
    let s = spec_open_brackets(n);
    if i < n {
        assert(s[i] == '[');
        assert(crate::tokenize::spec_gap_end(s, i) == i);
        assert(crate::tokenize::spec_token_at(s, i) == (Some(TokenKind::OpenList), i + 1));
        lemma_open_bracket_tokens(n, i + 1);
        let rest = crate::tokenize::spec_tokens(s, i + 1);
        assert(crate::tokenize::spec_tokens(s, i) == seq![
            SpecTok { start: i, end: i + 1, kind: Some(TokenKind::OpenList) },
        ] + rest);
    }
}

/// Parsing a value at position `p` of an all-brackets token stream, at
/// the depth that position reaches, runs into the recursion ceiling.
proof fn lemma_open_bracket_descent(s: Seq<char>, toks: Seq<SpecTok>, p: int)
    requires
        toks.len() >= MAX_RECURSION_DEPTH / 2 + 1,
        forall|k: int|
            0 <= k < toks.len() ==> toks[k] == (SpecTok {
                start: k,
                end: k + 1,
                kind: Some(TokenKind::OpenList),
            }),
        0 <= p <= MAX_RECURSION_DEPTH / 2,
    ensures
        spec_parse_token_tree(s, toks, p, 2 * p + 1) == Err::<(SpecTokenTree, int), (
            SpecErrorValue,
            int,
        )>(
            (
                spec_error_at(
                    s,
                    Span {
                        start: (MAX_RECURSION_DEPTH / 2 - 1) as usize,
                        end: (MAX_RECURSION_DEPTH / 2) as usize,
                    },
                    "Maximum recursion depth exceeded while parsing document"@,
                ),
                MAX_RECURSION_DEPTH as int / 2,
            ),
        ),
    decreases MAX_RECURSION_DEPTH / 2 - p,
{
    let half = MAX_RECURSION_DEPTH as int / 2;
    if p == half {
        // The guard fires: the span points at the bracket before this one.
        assert(2 * p + 1 >= MAX_RECURSION_DEPTH);
        assert(spec_prev_span(toks, p) == (Span {
            start: (half - 1) as usize,
            end: half as usize,
        }));
    } else {
        assert(2 * p + 1 < MAX_RECURSION_DEPTH);
        assert(toks[p].kind == Some(TokenKind::OpenList));
        assert(spec_parse_comments(s, toks, p) == (Seq::<Seq<char>>::empty(), p));
        assert(spec_parse_comments(s, toks, p + 1) == (Seq::<Seq<char>>::empty(), p + 1));
        lemma_open_bracket_descent(s, toks, p + 1);
        let e = (
            spec_error_at(
                s,
                Span {
                    start: (MAX_RECURSION_DEPTH / 2 - 1) as usize,
                    end: (MAX_RECURSION_DEPTH / 2) as usize,
                },
                "Maximum recursion depth exceeded while parsing document"@,
            ),
            MAX_RECURSION_DEPTH as int / 2,
        );
        assert(spec_parse_list_contents(s, toks, p + 1, 2 * p + 2) == Err::<
            ((Seq<SpecTokenTree>, Seq<Seq<char>>), int),
            (SpecErrorValue, int),
        >(e));
        assert(spec_parse_value(s, toks, p, 2 * p + 1, TokenKind::OpenList) == Err::<
            (SpecTokenValue, int),
            (SpecErrorValue, int),
        >(e));
    }
}

/// Recursion-depth safety: a run of opening brackets deeper than the
/// parser's ceiling can reach always fails with the recursion-limit
/// error — whatever its length, the parser returns that error rather
/// than recursing further. (That it cannot crash at all is part of its
/// verification: every parse terminates and returns a result.)
pub proof fn lemma_recursion_depth_guard(n: nat)
    requires
        n > MAX_RECURSION_DEPTH / 2,
    ensures
        spec_parse_top(spec_open_brackets(n)) == Err::<SpecTokenTree, SpecErrorValue>(
            spec_error_at(
                spec_open_brackets(n),
                Span {
                    start: (MAX_RECURSION_DEPTH / 2 - 1) as usize,
                    end: (MAX_RECURSION_DEPTH / 2) as usize,
                },
                "Maximum recursion depth exceeded while parsing document"@,
            ),
        ),
{
    let s = spec_open_brackets(n);
    let toks = crate::tokenize::spec_tokens(s, 0);
    lemma_open_bracket_tokens(n, 0);
    lemma_open_bracket_descent(s, toks, 0);
    let e = (
        spec_error_at(
            s,
            Span {
                start: (MAX_RECURSION_DEPTH / 2 - 1) as usize,
                end: (MAX_RECURSION_DEPTH / 2) as usize,
            },
            "Maximum recursion depth exceeded while parsing document"@,
        ),
        MAX_RECURSION_DEPTH as int / 2,
    );
    assert(spec_parse_comments(s, toks, 0) == (Seq::<Seq<char>>::empty(), 0int));
    assert(toks[0].kind == Some(TokenKind::OpenList));
    assert(spec_parse_map_contents(s, toks, 0, 0) == Err::<
        ((Seq<SpecTokenKeyValue>, Seq<Seq<char>>), int),
        (SpecErrorValue, int),
    >(e));
    assert(spec_parse_list_contents(s, toks, 0, 0) == Err::<
        ((Seq<SpecTokenTree>, Seq<Seq<char>>), int),
        (SpecErrorValue, int),
    >(e));
}

/// Prepending already-parsed list elements to the outcome of parsing the
/// rest of the list.
pub open spec fn spec_with_values(
    acc: Seq<SpecTokenTree>,
    r: Result<((Seq<SpecTokenTree>, Seq<Seq<char>>), int), (SpecErrorValue, int)>,
) -> Result<((Seq<SpecTokenTree>, Seq<Seq<char>>), int), (SpecErrorValue, int)> {
    match r {
        Ok(((vs, cl), p)) => Ok(((acc + vs, cl), p)),
        Err(e) => Err(e),
    }
}

/// Prepending already-parsed map entries to the outcome of parsing the
/// rest of the map.
pub open spec fn spec_with_entries(
    acc: Seq<SpecTokenKeyValue>,
    r: Result<((Seq<SpecTokenKeyValue>, Seq<Seq<char>>), int), (SpecErrorValue, int)>,
) -> Result<((Seq<SpecTokenKeyValue>, Seq<Seq<char>>), int), (SpecErrorValue, int)> {
    match r {
        Ok(((vs, cl), p)) => Ok(((acc + vs, cl), p)),
        Err(e) => Err(e),
    }
}

/// The span of the token just before position `pos`.
fn prev_span_at(toks: &Vec<PlacedTokenResult>, pos: usize) -> (r: Span)
    requires
        pos <= toks@.len(),
    ensures
        r == spec_prev_span(spec_toks_of(toks@), pos as int),
{
    proof {
        lemma_spec_toks_of(toks@);
    }
    if pos == 0 {
        Span { start: 0, end: 0 }
    } else {
        toks[pos - 1].span
    }
}

/// Whether `chars[from..to]` holds a newline.
fn range_newline(chars: &Vec<char>, from: usize, to: usize) -> (r: bool)
    requires
        to <= chars@.len(),
    ensures
        r == spec_range_has_newline(chars@, from as int, to as int),
{
    let mut i: usize = from;
    while i < to
        invariant
            from <= i,
            to <= chars@.len(),
            i <= to || i == from,
            forall|j: int| from <= j < i ==> chars@[j] != '\n',
        decreases to - i,
    {
        if chars[i] == '\n' {
            return true;
        }
        i = i + 1;
    }
    false
}

/// The owned error for the invalid token at position `pos`.
fn token_error(source: &str, toks: &Vec<PlacedTokenResult>, pos: usize) -> (r: Error)
    requires
        spec_tokens_wf(toks@, source@),
        pos < toks@.len(),
        spec_toks_of(toks@)[pos as int].kind is None,
    ensures
        r@ == spec_invalid_token_error(source@, spec_toks_of(toks@)[pos as int]),
{
    proof {
        lemma_spec_toks_of(toks@);
    }
    let t = &toks[pos];
    match &t.kind {
        Err(e) => Error::new_at(source, t.span, e.message().clone()),
        Ok(_) => {
            proof {
                assert(false);
            }
            Error::custom(String::new())
        },
    }
}

/// Collect consecutive comment tokens starting at `pos`.
fn parse_comments(source: &str, toks: &Vec<PlacedTokenResult>, pos: usize) -> (r: (
    Vec<String>,
    usize,
))
    requires
        spec_tokens_wf(toks@, source@),
        pos <= toks@.len(),
    ensures
        spec_strings(r.0@) == spec_parse_comments(source@, spec_toks_of(toks@), pos as int).0,
        r.1 == spec_parse_comments(source@, spec_toks_of(toks@), pos as int).1,
        pos <= r.1 <= toks@.len(),
        r.1 < toks@.len() ==> spec_toks_of(toks@)[r.1 as int].kind != Some(TokenKind::Comment),
{
    let ghost s = source@;
    let ghost tv = spec_toks_of(toks@);
    let n = toks.len();
    let mut out: Vec<String> = Vec::new();
    let mut p: usize = pos;
    proof {
        lemma_spec_toks_of(toks@);
        assert(spec_strings(out@) + spec_parse_comments(s, tv, p as int).0 =~= spec_parse_comments(
            s,
            tv,
            p as int,
        ).0);
    }
    loop
        invariant
            pos <= p <= n == toks@.len(),
            s == source@,
            tv == spec_toks_of(toks@),
            spec_tokens_wf(toks@, s),
            tv.len() == toks@.len(),
            forall|i: int| 0 <= i < toks@.len() ==> tv[i] == spec_tok_of(toks@[i]),
            spec_parse_comments(s, tv, pos as int).0 == spec_strings(out@) + spec_parse_comments(
                s,
                tv,
                p as int,
            ).0,
            spec_parse_comments(s, tv, pos as int).1 == spec_parse_comments(s, tv, p as int).1,
        decreases n - p,
    {
        if p >= n {
            proof {
                assert(spec_parse_comments(s, tv, p as int).0 == Seq::<Seq<char>>::empty());
                assert(spec_strings(out@) + Seq::<Seq<char>>::empty() =~= spec_strings(out@));
            }
            return (out, p);
        }
        let t = &toks[p];
        let is_comment = match &t.kind {
            Ok(TokenKind::Comment) => true,
            _ => false,
        };
        if !is_comment {
            proof {
                assert(tv[p as int].kind != Some(TokenKind::Comment));
                assert(spec_parse_comments(s, tv, p as int).0 == Seq::<Seq<char>>::empty());
                assert(spec_strings(out@) + Seq::<Seq<char>>::empty() =~= spec_strings(out@));
            }
            return (out, p);
        }
        let sl = t.slice.clone();
        proof {
            assert(tv[p as int].kind == Some(TokenKind::Comment));
            assert(sl@ == spec_slice(s, tv[p as int]));
            lemma_spec_strings_push(out@, sl);
            let one = seq![spec_slice(s, tv[p as int])];
            let rest = spec_parse_comments(s, tv, p + 1).0;
            assert(spec_parse_comments(s, tv, p as int).0 == one + rest);
            assert(spec_strings(out@) + (one + rest) =~= spec_strings(out@).push(sl@) + rest);
        }
        out.push(sl);
        p = p + 1;
    }
}

/// A comment token directly after `pos` on the same line as the last
/// consumed token, if any.
fn parse_suffix_comment(
    source: &str,
    chars: &Vec<char>,
    toks: &Vec<PlacedTokenResult>,
    pos: usize,
) -> (r: (Option<String>, usize))
    requires
        spec_tokens_wf(toks@, source@),
        chars@ == source@,
        pos <= toks@.len(),
    ensures
        spec_opt_string(r.0) == spec_parse_suffix_comment(source@, spec_toks_of(toks@), pos as int).0,
        r.1 == spec_parse_suffix_comment(source@, spec_toks_of(toks@), pos as int).1,
        pos <= r.1 <= toks@.len(),
{
    proof {
        lemma_spec_toks_of(toks@);
    }
    let n = toks.len();
    if pos >= n {
        return (None, pos);
    }
    let t = &toks[pos];
    let is_comment = match &t.kind {
        Ok(TokenKind::Comment) => true,
        _ => false,
    };
    if !is_comment {
        return (None, pos);
    }
    let previous = prev_span_at(toks, pos);
    if range_newline(chars, previous.end, t.span.start) {
        // The comment is not on the same line.
        (None, pos)
    } else {
        (Some(t.slice.clone()), pos + 1)
    }
}

/// Consume one token that must be of kind `expected`.
fn consume_token_at(
    source: &str,
    toks: &Vec<PlacedTokenResult>,
    pos: usize,
    expected: TokenKind,
) -> (r: Result<usize, (Error, usize)>)
    requires
        spec_tokens_wf(toks@, source@),
        pos <= toks@.len(),
    ensures
        match r {
            Ok(p) => spec_consume_token(source@, spec_toks_of(toks@), pos as int, expected)
                == Ok::<int, (SpecErrorValue, int)>(p as int) && p == pos + 1 <= toks@.len(),
            Err((e, end)) => spec_consume_token(source@, spec_toks_of(toks@), pos as int, expected)
                == Err::<int, (SpecErrorValue, int)>((e@, end as int)),
        },
{
    proof {
        lemma_spec_toks_of(toks@);
    }
    let n = toks.len();
    if pos >= n {
        let mut m: Vec<char> = Vec::new();
        push_str_chars(&mut m, "Expected ");
        push_str_chars(&mut m, expected.describe());
        push_str_chars(&mut m, " but reached end of input");
        proof {
            assert(m@ =~= "Expected "@ + spec_describe(expected)
                + " but reached end of input"@);
        }
        let previous = prev_span_at(toks, pos);
        return Err((Error::new_at(source, previous, chars_to_string(&m)), previous.end));
    }
    let t = &toks[pos];
    match &t.kind {
        Err(_) => Err((token_error(source, toks, pos), t.span.end)),
        Ok(k) => {
            if *k == expected {
                Ok(pos + 1)
            } else {
                let mut m: Vec<char> = Vec::new();
                push_str_chars(&mut m, "Expected ");
                push_str_chars(&mut m, expected.describe());
                push_str_chars(&mut m, " but found ");
                push_str_chars(&mut m, k.describe());
                proof {
                    assert(m@ =~= "Expected "@ + spec_describe(expected) + " but found "@
                        + spec_describe(*k));
                }
                Err((Error::new_at(source, t.span, chars_to_string(&m)), t.span.end))
            }
        },
    }
}

/// Parse a value at `pos`, including its prefix and suffix comments.
fn parse_token_tree(
    source: &str,
    chars: &Vec<char>,
    toks: &Vec<PlacedTokenResult>,
    pos: usize,
    depth: usize,
) -> (r: Result<(TokenTree, usize), (Error, usize)>)
    requires
        spec_tokens_wf(toks@, source@),
        chars@ == source@,
        pos <= toks@.len(),
        depth <= MAX_RECURSION_DEPTH + 1,
    ensures
        match r {
            Ok((tree, p)) => spec_parse_token_tree(
                source@,
                spec_toks_of(toks@),
                pos as int,
                depth as int,
            ) == Ok::<(SpecTokenTree, int), (SpecErrorValue, int)>((tree@, p as int)) && pos < p
                <= toks@.len(),
            Err((e, end)) => spec_parse_token_tree(
                source@,
                spec_toks_of(toks@),
                pos as int,
                depth as int,
            ) == Err::<(SpecTokenTree, int), (SpecErrorValue, int)>((e@, end as int)),
        },
    decreases toks@.len() - pos, MAX_RECURSION_DEPTH + 2 - depth, 2int,
{
    proof {
        lemma_spec_toks_of(toks@);
    }
    if depth >= MAX_RECURSION_DEPTH {
        let previous = prev_span_at(toks, pos);
        let msg = String::from_str("Maximum recursion depth exceeded while parsing document");
        return Err((Error::new_at(source, previous, msg), previous.end));
    }
    let (prefix_comments, p1) = parse_comments(source, toks, pos);
    let n = toks.len();
    if p1 >= n {
        let len = chars.len();
        let msg = String::from_str("Unexpected end of input: expected a value");
        let previous = prev_span_at(toks, p1);
        return Err((Error::new_at(source, Span { start: len, end: len }, msg), previous.end));
    }
    let t = &toks[p1];
    let kind = match &t.kind {
        Err(_) => {
            return Err((token_error(source, toks, p1), t.span.end));
        },
        Ok(k) => *k,
    };
    let start_span = t.span;
    match parse_value_at(source, chars, toks, p1, depth, kind) {
        Err(e) => Err(e),
        Ok((value, p2)) => {
            let span = start_span.union(prev_span_at(toks, p2));
            let (suffix_comment, p3) = parse_suffix_comment(source, chars, toks, p2);
            let tree = TokenTree { span: Some(span), prefix_comments, value, suffix_comment };
            proof {
                assert(tree@ == (SpecTokenTree {
                    span: Some(span),
                    prefix_comments: spec_strings(tree.prefix_comments@),
                    value: tree.value@,
                    suffix_comment: spec_opt_string(tree.suffix_comment),
                }));
            }
            Ok((tree, p3))
        },
    }
}

/// Parse the value whose first token (of kind `kind`) stands at `pos`.
fn parse_value_at(
    source: &str,
    chars: &Vec<char>,
    toks: &Vec<PlacedTokenResult>,
    pos: usize,
    depth: usize,
    kind: TokenKind,
) -> (r: Result<(TokenValue, usize), (Error, usize)>)
    requires
        spec_tokens_wf(toks@, source@),
        chars@ == source@,
        pos < toks@.len(),
        spec_toks_of(toks@)[pos as int].kind == Some(kind),
        depth < MAX_RECURSION_DEPTH,
    ensures
        match r {
            Ok((value, p)) => spec_parse_value(
                source@,
                spec_toks_of(toks@),
                pos as int,
                depth as int,
                kind,
            ) == Ok::<(SpecTokenValue, int), (SpecErrorValue, int)>((value@, p as int)) && pos < p
                <= toks@.len(),
            Err((e, end)) => spec_parse_value(
                source@,
                spec_toks_of(toks@),
                pos as int,
                depth as int,
                kind,
            ) == Err::<(SpecTokenValue, int), (SpecErrorValue, int)>((e@, end as int)),
        },
    decreases toks@.len() - pos, MAX_RECURSION_DEPTH + 2 - depth, 1int,
{
    proof {
        lemma_spec_toks_of(toks@);
    }
    let n = toks.len();
    let t = &toks[pos];
    let p = pos + 1;
    match kind {
        TokenKind::OpenList => {
            match parse_list_contents(source, chars, toks, p, depth + 1) {
                Err(e) => Err(e),
                Ok(((values, closing_comments), p2)) => {
                    match consume_token_at(source, toks, p2, TokenKind::CloseList) {
                        Err(e) => Err(e),
                        Ok(p3) => Ok(
                            (TokenValue::List(TokenList { values, closing_comments }), p3),
                        ),
                    }
                },
            }
        },
        TokenKind::OpenBrace => {
            match parse_map_contents(source, chars, toks, p, depth + 1) {
                Err(e) => Err(e),
                Ok(((key_values, closing_comments), p2)) => {
                    match consume_token_at(source, toks, p2, TokenKind::CloseBrace) {
                        Err(e) => Err(e),
                        Ok(p3) => Ok(
                            (TokenValue::Object(TokenMap { key_values, closing_comments }), p3),
                        ),
                    }
                },
            }
        },
        TokenKind::Identifier => Ok((TokenValue::Identifier(t.slice.clone()), p)),
        TokenKind::Number => Ok((TokenValue::Number(t.slice.clone()), p)),
        TokenKind::DoubleQuotedString
        | TokenKind::SingleQuotedString
        | TokenKind::MultilineBasicString
        | TokenKind::MultilineLiteralString => {
            // A free-floating string, or the opening of a variant like
            // `"Rgb"(…)`.
            let follows_paren = p < n && (match &toks[p].kind {
                Ok(TokenKind::OpenParen) => true,
                _ => false,
            });
            if follows_paren {
                match parse_list_contents(source, chars, toks, p + 1, depth + 1) {
                    Err(e) => Err(e),
                    Ok(((values, closing_comments), p2)) => {
                        match consume_token_at(source, toks, p2, TokenKind::CloseParen) {
                            Err(e) => Err(e),
                            Ok(p3) => Ok(
                                (
                                    TokenValue::Variant(
                                        TokenVariant {
                                            name_span: Some(t.span),
                                            quoted_name: t.slice.clone(),
                                            values,
                                            closing_comments,
                                        },
                                    ),
                                    p3,
                                ),
                            ),
                        }
                    },
                }
            } else {
                // Just a string, not a variant.
                Ok((TokenValue::QuotedString(t.slice.clone()), p))
            }
        },
        TokenKind::CloseList => {
            let msg = String::from_str("Unbalanced brackets");
            Err((Error::new_at(source, t.span, msg), t.span.end))
        },
        TokenKind::CloseBrace => {
            let msg = String::from_str("Unbalanced braces");
            Err((Error::new_at(source, t.span, msg), t.span.end))
        },
        TokenKind::CloseParen => {
            let msg = String::from_str("Unbalanced parentheses");
            Err((Error::new_at(source, t.span, msg), t.span.end))
        },
        TokenKind::OpenParen => {
            let msg = String::from_str("Parentheses must be proceeded by a string");
            Err((Error::new_at(source, t.span, msg), t.span.end))
        },
        TokenKind::Colon | TokenKind::Comma | TokenKind::Comment => {
            let msg = String::from_str("Expected a value, like a map, list, number, or string");
            Err((Error::new_at(source, t.span, msg), t.span.end))
        },
    }
}

/// Parse the inside of a list, without consuming the opening or closing
/// brackets.
fn parse_list_contents(
    source: &str,
    chars: &Vec<char>,
    toks: &Vec<PlacedTokenResult>,
    pos: usize,
    depth: usize,
) -> (r: Result<((Vec<TokenTree>, Vec<String>), usize), (Error, usize)>)
    requires
        spec_tokens_wf(toks@, source@),
        chars@ == source@,
        pos <= toks@.len(),
        depth <= MAX_RECURSION_DEPTH,
    ensures
        match r {
            Ok(((values, closing), p)) => spec_parse_list_contents(
                source@,
                spec_toks_of(toks@),
                pos as int,
                depth as int,
            ) == Ok::<((Seq<SpecTokenTree>, Seq<Seq<char>>), int), (SpecErrorValue, int)>(
                ((spec_trees(values@), spec_strings(closing@)), p as int),
            ) && pos <= p <= toks@.len(),
            Err((e, end)) => spec_parse_list_contents(
                source@,
                spec_toks_of(toks@),
                pos as int,
                depth as int,
            ) == Err::<((Seq<SpecTokenTree>, Seq<Seq<char>>), int), (SpecErrorValue, int)>(
                (e@, end as int),
            ),
        },
    decreases toks@.len() - pos, MAX_RECURSION_DEPTH + 2 - depth, 0int,
{
    let ghost s = source@;
    let ghost tv = spec_toks_of(toks@);
    let n = toks.len();
    let mut values: Vec<TokenTree> = Vec::new();
    let mut p: usize = pos;
    proof {
        lemma_spec_toks_of(toks@);
        match spec_parse_list_contents(s, tv, p as int, depth as int) {
            Ok(((vs, cl), q)) => {
                assert(Seq::<SpecTokenTree>::empty() + vs =~= vs);
            },
            Err(_) => {},
        }
    }
    loop
        invariant
            pos <= p <= n == toks@.len(),
            depth <= MAX_RECURSION_DEPTH,
            s == source@,
            chars@ == s,
            tv == spec_toks_of(toks@),
            spec_tokens_wf(toks@, s),
            forall|i: int| 0 <= i < toks@.len() ==> tv[i] == spec_tok_of(toks@[i]),
            tv.len() == toks@.len(),
            spec_parse_list_contents(s, tv, pos as int, depth as int) == spec_with_values(
                spec_trees(values@),
                spec_parse_list_contents(s, tv, p as int, depth as int),
            ),
        decreases n - p,
    {
        let ghost here = spec_parse_list_contents(s, tv, p as int, depth as int);
        let (cmts, p1) = parse_comments(source, toks, p);
        let at_closing = p1 >= n || (match &toks[p1].kind {
            Ok(TokenKind::CloseBrace) => true,
            Ok(TokenKind::CloseList) => true,
            Ok(TokenKind::CloseParen) => true,
            _ => false,
        });
        if at_closing {
            proof {
                assert(here == Ok::<((Seq<SpecTokenTree>, Seq<Seq<char>>), int), (
                    SpecErrorValue,
                    int,
                )>(((Seq::empty(), spec_strings(cmts@)), p1 as int)));
                assert(spec_trees(values@) + Seq::<SpecTokenTree>::empty() =~= spec_trees(
                    values@,
                ));
            }
            return Ok(((values, cmts), p1));
        }
        match parse_token_tree(source, chars, toks, p1, depth + 1) {
            Err(e) => {
                return Err(e);
            },
            Ok((tree, p2)) => {
                let ghost tree0v = tree@;
                let mut tree = tree;
                // Put the comments gathered before the value in front of
                // the value's own prefix comments.
                let ghost cmts_v = cmts@;
                let mut pc = cmts;
                let mut k: usize = 0;
                let ghost own = tree.prefix_comments@;
                proof {
                    assert(spec_strings(own.subrange(0, 0)) =~= Seq::<Seq<char>>::empty());
                    assert(spec_strings(pc@) + Seq::<Seq<char>>::empty() =~= spec_strings(pc@));
                }
                while k < tree.prefix_comments.len()
                    invariant
                        k <= own.len(),
                        own == tree.prefix_comments@,
                        spec_strings(pc@) == spec_strings(cmts_v) + spec_strings(
                            own.subrange(0, k as int),
                        ),
                    decreases own.len() - k,
                {
                    let cl = tree.prefix_comments[k].clone();
                    proof {
                        lemma_spec_strings_push(pc@, cl);
                        assert(spec_strings(own.subrange(0, k + 1)) =~= spec_strings(
                            own.subrange(0, k as int),
                        ).push(own[k as int]@));
                        assert((spec_strings(cmts_v) + spec_strings(own.subrange(0, k as int)))
                            .push(cl@) =~= spec_strings(cmts_v) + spec_strings(
                            own.subrange(0, k as int),
                        ).push(own[k as int]@));
                    }
                    pc.push(cl);
                    k = k + 1;
                }
                proof {
                    assert(own.subrange(0, own.len() as int) =~= own);
                }
                tree.prefix_comments = pc;
                let ghost tree1v = SpecTokenTree {
                    prefix_comments: spec_strings(cmts_v) + tree0v.prefix_comments,
                    ..tree0v
                };
                proof {
                    assert(tree@ == tree1v);
                }
                let has_comma = p2 < n && (match &toks[p2].kind {
                    Ok(TokenKind::Comma) => true,
                    _ => false,
                });
                let p3: usize;
                if has_comma {
                    // Consume the optional comma; a comment on the same
                    // line then attaches to the value just parsed.
                    let (suffix, pp) = parse_suffix_comment(source, chars, toks, p2 + 1);
                    tree.suffix_comment = suffix;
                    p3 = pp;
                    proof {
                        assert(tree@ == (SpecTokenTree {
                            suffix_comment: spec_opt_string(tree.suffix_comment),
                            ..tree1v
                        }));
                    }
                } else {
                    p3 = p2;
                }
                let ghost tree2v = tree@;
                proof {
                    let rest = spec_parse_list_contents(s, tv, p3 as int, depth as int);
                    assert(here == (match rest {
                        Ok(((vs, cl), q)) => Ok::<((Seq<SpecTokenTree>, Seq<Seq<char>>), int), (
                            SpecErrorValue,
                            int,
                        )>(((seq![tree2v] + vs, cl), q)),
                        Err(e) => Err(e),
                    }));
                    assert(spec_trees(values@.push(tree)) =~= spec_trees(values@).push(tree2v))
                        by {
                        assert(values@.push(tree).subrange(0, values@.len() as int) =~= values@);
                    }
                    match rest {
                        Ok(((vs, cl), q)) => {
                            assert(spec_trees(values@) + (seq![tree2v] + vs) =~= spec_trees(
                                values@,
                            ).push(tree2v) + vs);
                        },
                        Err(_) => {},
                    }
                }
                values.push(tree);
                p = p3;
            },
        }
    }
}

/// Parse the inside of a map, without consuming the opening or closing
/// braces.
fn parse_map_contents(
    source: &str,
    chars: &Vec<char>,
    toks: &Vec<PlacedTokenResult>,
    pos: usize,
    depth: usize,
) -> (r: Result<((Vec<TokenKeyValue>, Vec<String>), usize), (Error, usize)>)
    requires
        spec_tokens_wf(toks@, source@),
        chars@ == source@,
        pos <= toks@.len(),
        depth <= MAX_RECURSION_DEPTH,
    ensures
        match r {
            Ok(((key_values, closing), p)) => spec_parse_map_contents(
                source@,
                spec_toks_of(toks@),
                pos as int,
                depth as int,
            ) == Ok::<((Seq<SpecTokenKeyValue>, Seq<Seq<char>>), int), (SpecErrorValue, int)>(
                ((spec_key_values(key_values@), spec_strings(closing@)), p as int),
            ) && pos <= p <= toks@.len(),
            Err((e, end)) => spec_parse_map_contents(
                source@,
                spec_toks_of(toks@),
                pos as int,
                depth as int,
            ) == Err::<((Seq<SpecTokenKeyValue>, Seq<Seq<char>>), int), (SpecErrorValue, int)>(
                (e@, end as int),
            ),
        },
    decreases toks@.len() - pos, MAX_RECURSION_DEPTH + 2 - depth, 0int,
{
    let ghost s = source@;
    let ghost tv = spec_toks_of(toks@);
    let n = toks.len();
    let mut key_values: Vec<TokenKeyValue> = Vec::new();
    let mut p: usize = pos;
    proof {
        lemma_spec_toks_of(toks@);
        match spec_parse_map_contents(s, tv, p as int, depth as int) {
            Ok(((vs, cl), q)) => {
                assert(Seq::<SpecTokenKeyValue>::empty() + vs =~= vs);
            },
            Err(_) => {},
        }
    }
    loop
        invariant
            pos <= p <= n == toks@.len(),
            depth <= MAX_RECURSION_DEPTH,
            s == source@,
            chars@ == s,
            tv == spec_toks_of(toks@),
            spec_tokens_wf(toks@, s),
            forall|i: int| 0 <= i < toks@.len() ==> tv[i] == spec_tok_of(toks@[i]),
            tv.len() == toks@.len(),
            spec_parse_map_contents(s, tv, pos as int, depth as int) == spec_with_entries(
                spec_key_values(key_values@),
                spec_parse_map_contents(s, tv, p as int, depth as int),
            ),
        decreases n - p,
    {
        let ghost here = spec_parse_map_contents(s, tv, p as int, depth as int);
        let (cmts, p1) = parse_comments(source, toks, p);
        let at_closing = p1 >= n || (match &toks[p1].kind {
            Ok(TokenKind::CloseBrace) => true,
            Ok(TokenKind::CloseList) => true,
            Ok(TokenKind::CloseParen) => true,
            _ => false,
        });
        if at_closing {
            proof {
                assert(here == Ok::<((Seq<SpecTokenKeyValue>, Seq<Seq<char>>), int), (
                    SpecErrorValue,
                    int,
                )>(((Seq::empty(), spec_strings(cmts@)), p1 as int)));
                assert(spec_key_values(key_values@) + Seq::<SpecTokenKeyValue>::empty()
                    =~= spec_key_values(key_values@));
            }
            return Ok(((key_values, cmts), p1));
        }
        match parse_token_tree(source, chars, toks, p1, depth + 1) {
            Err(e) => {
                return Err(e);
            },
            Ok((key0, p2)) => {
                let ghost key0v = key0@;
                let mut key = key0;
                key.prefix_comments = cmts;
                let ghost keyv = SpecTokenTree {
                    prefix_comments: spec_strings(key.prefix_comments@),
                    ..key0v
                };
                proof {
                    assert(key@ == keyv);
                }
                match consume_token_at(source, toks, p2, TokenKind::Colon) {
                    Err(e) => {
                        return Err(e);
                    },
                    Ok(p3) => {
                        match parse_token_tree(source, chars, toks, p3, depth + 1) {
                            Err(e) => {
                                return Err(e);
                            },
                            Ok((value0, p4)) => {
                                let ghost value0v = value0@;
                                let mut value = value0;
                                let has_comma = p4 < n && (match &toks[p4].kind {
                                    Ok(TokenKind::Comma) => true,
                                    _ => false,
                                });
                                let p5: usize;
                                if has_comma {
                                    let (suffix, pp) = parse_suffix_comment(
                                        source,
                                        chars,
                                        toks,
                                        p4 + 1,
                                    );
                                    value.suffix_comment = suffix;
                                    p5 = pp;
                                    proof {
                                        assert(value@ == (SpecTokenTree {
                                            suffix_comment: spec_opt_string(value.suffix_comment),
                                            ..value0v
                                        }));
                                    }
                                } else {
                                    p5 = p4;
                                }
                                let ghost valuev = value@;
                                let entry = TokenKeyValue { key, value };
                                proof {
                                    let rest = spec_parse_map_contents(
                                        s,
                                        tv,
                                        p5 as int,
                                        depth as int,
                                    );
                                    assert(here == (match rest {
                                        Ok(((vs, cl), q)) => Ok::<
                                            ((Seq<SpecTokenKeyValue>, Seq<Seq<char>>), int),
                                            (SpecErrorValue, int),
                                        >(
                                            (
                                                (
                                                    seq![
                                                        SpecTokenKeyValue {
                                                            key: keyv,
                                                            value: valuev,
                                                        },
                                                    ] + vs,
                                                    cl,
                                                ),
                                                q,
                                            ),
                                        ),
                                        Err(e) => Err(e),
                                    }));
                                    assert(spec_key_values(key_values@.push(entry))
                                        =~= spec_key_values(key_values@).push(
                                        SpecTokenKeyValue { key: keyv, value: valuev },
                                    )) by {
                                        assert(key_values@.push(entry).subrange(
                                            0,
                                            key_values@.len() as int,
                                        ) =~= key_values@);
                                    }
                                    match rest {
                                        Ok(((vs, cl), q)) => {
                                            assert(spec_key_values(key_values@) + (seq![
                                                SpecTokenKeyValue { key: keyv, value: valuev },
                                            ] + vs) =~= spec_key_values(key_values@).push(
                                                SpecTokenKeyValue { key: keyv, value: valuev },
                                            ) + vs);
                                        },
                                        Err(_) => {},
                                    }
                                }
                                key_values.push(entry);
                                p = p5;
                            },
                        }
                    },
                }
            },
        }
    }
}

/// Check that nothing but the end of the input follows `pos`.
fn check_trailing(source: &str, toks: &Vec<PlacedTokenResult>, pos: usize) -> (r: Result<
    (),
    (Error, usize),
>)
    requires
        spec_tokens_wf(toks@, source@),
        pos <= toks@.len(),
    ensures
        match r {
            Ok(_) => spec_check_trailing(source@, spec_toks_of(toks@), pos as int) is Ok,
            Err((e, end)) => spec_check_trailing(source@, spec_toks_of(toks@), pos as int)
                == Err::<int, (SpecErrorValue, int)>((e@, end as int)),
        },
{
    proof {
        lemma_spec_toks_of(toks@);
    }
    let n = toks.len();
    if pos >= n {
        return Ok(());
    }
    let t = &toks[pos];
    match &t.kind {
        Err(_) => Err((token_error(source, toks, pos), t.span.end)),
        Ok(_) => {
            let msg = String::from_str("Expected end of file here");
            Err((Error::new_at(source, t.span, msg), t.span.end))
        },
    }
}

/// Parse a whole document.
fn parse_top_str(source: &str) -> (r: Result<TokenTree, Error>)
    ensures
        match r {
            Ok(tree) => spec_parse_top(source@) == Ok::<SpecTokenTree, SpecErrorValue>(tree@),
            Err(e) => spec_parse_top(source@) == Err::<SpecTokenTree, SpecErrorValue>(e@),
        },
{
    let toks = tokenize(source);
    let chars = str_to_chars(source);
    let len = chars.len();
    let whole_span = Span { start: 0, end: len };
    // Usually a file contains a bunch of `key: value` pairs, without any
    // surrounding braces, so that case is tried first.
    match parse_map_contents(source, &chars, &toks, 0, 0) {
        Ok(((key_values, closing_comments), p)) => {
            match check_trailing(source, &toks, p) {
                Err((e, _)) => Err(e),
                Ok(_) => {
                    let ghost kvs_v = spec_key_values(key_values@);
                    let ghost cl_v = spec_strings(closing_comments@);
                    let tree = TokenTree {
                        span: Some(whole_span),
                        prefix_comments: Vec::new(),
                        value: TokenValue::Object(TokenMap { key_values, closing_comments }),
                        suffix_comment: None,
                    };
                    proof {
                        assert(spec_strings(tree.prefix_comments@) =~= Seq::<Seq<char>>::empty());
                        assert(tree@ == (SpecTokenTree {
                            span: Some(whole_span),
                            prefix_comments: Seq::empty(),
                            value: SpecTokenValue::Object(kvs_v, cl_v),
                            suffix_comment: None,
                        }));
                        assert(spec_parse_top(source@) == Ok::<SpecTokenTree, SpecErrorValue>(
                            tree@,
                        ));
                    }
                    Ok(tree)
                },
            }
        },
        Err((err_a, end_a)) => {
            // Maybe the file is wrapped in braces, or is not a map at all.
            match parse_list_contents(source, &chars, &toks, 0, 0) {
                Ok(((values, closing_comments), p)) => {
                    match check_trailing(source, &toks, p) {
                        Err((e, _)) => Err(e),
                        Ok(_) => {
                            let mut values = values;
                            let ghost values_v = values@;
                            if values.len() == 1 {
                                // A file containing a single value, e.g.
                                // `42` or `{…}`.
                                match values.pop() {
                                    Some(tree) => {
                                        proof {
                                            crate::token_tree::lemma_spec_trees(values_v);
                                            assert(tree == values_v[0]);
                                            assert(spec_parse_top(source@) == Ok::<
                                                SpecTokenTree,
                                                SpecErrorValue,
                                            >(tree@));
                                        }
                                        Ok(tree)
                                    },
                                    None => {
                                        proof {
                                            assert(false);
                                        }
                                        Err(Error::custom(String::new()))
                                    },
                                }
                            } else {
                                // A file containing many values, e.g.
                                // `1, 2, 3` or `{…}, {…}`.
                                let ghost vs_v = spec_trees(values@);
                                let ghost cl_v = spec_strings(closing_comments@);
                                let tree = TokenTree {
                                    span: Some(whole_span),
                                    prefix_comments: Vec::new(),
                                    value: TokenValue::List(
                                        TokenList { values, closing_comments },
                                    ),
                                    suffix_comment: None,
                                };
                                proof {
                                    crate::token_tree::lemma_spec_trees(values_v);
                                    assert(spec_strings(tree.prefix_comments@) =~= Seq::<
                                        Seq<char>,
                                    >::empty());
                                    assert(tree@ == (SpecTokenTree {
                                        span: Some(whole_span),
                                        prefix_comments: Seq::empty(),
                                        value: SpecTokenValue::List(vs_v, cl_v),
                                        suffix_comment: None,
                                    }));
                                    assert(spec_parse_top(source@) == Ok::<
                                        SpecTokenTree,
                                        SpecErrorValue,
                                    >(tree@));
                                }
                                Ok(tree)
                            }
                        },
                    }
                },
                Err((err_b, end_b)) => {
                    // Keep the error of the attempt that got further.
                    if end_a < end_b {
                        Err(err_b)
                    } else {
                        Err(err_a)
                    }
                },
            }
        },
    }
}

impl TokenTree {
    /// Parse a whole document into a token tree.
    ///
    /// The grammar is ambiguous at the top level: a bare sequence of
    /// `key: value` pairs, a single value, and a bare sequence of values
    /// are all accepted. The alternatives are tried in that order and the
    /// one that parses furthest wins; on failure, the error of the
    /// attempt that consumed more input is returned.
    pub fn parse_str(source: &str) -> (r: Result<TokenTree, Error>)
        ensures
            match r {
                Ok(tree) => spec_parse_top(source@) == Ok::<SpecTokenTree, SpecErrorValue>(tree@),
                Err(e) => spec_parse_top(source@) == Err::<SpecTokenTree, SpecErrorValue>(e@),
            },
    {
        parse_top_str(source)
    }
}

} // verus!
