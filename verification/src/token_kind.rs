//! Classification of the tokens of the format.

use vstd::prelude::*;

verus! {

/// What kind of token a piece of source text is.
#[derive(Clone, Copy, Debug, PartialEq, Eq, Structural)]
pub enum TokenKind {
    /// `// Some comment`
    Comment,
    /// `[`
    OpenList,
    /// `]`
    CloseList,
    /// `{`
    OpenBrace,
    /// `}`
    CloseBrace,
    /// `(`
    OpenParen,
    /// `)`
    CloseParen,
    /// `:`
    Colon,
    /// `,`
    Comma,
    /// A bare word: a map key, or `false`, `true`, `null`
    Identifier,
    /// Anything that starts with a sign (+/-), a digit (0-9), or a period.
    Number,
    /// `"this"` — processes escape sequences like `\"`, `\\`, `\n`.
    DoubleQuotedString,
    /// `'like "this"'` — no escape processing.
    SingleQuotedString,
    /// `"""…"""` — may span lines, processes escape sequences.
    MultilineBasicString,
    /// `'''…'''` — may span lines, no escape processing.
    MultilineLiteralString,
}

/// The wording used for a kind of token in error messages.
pub open spec fn spec_describe(kind: TokenKind) -> Seq<char> {
    match kind {
        TokenKind::Comment => "// comment"@,
        TokenKind::OpenList => "open bracket '['"@,
        TokenKind::CloseList => "close bracket ']'"@,
        TokenKind::OpenBrace => "open brace '{'"@,
        TokenKind::CloseBrace => "close brace '}'"@,
        TokenKind::OpenParen => "open parenthesis '('"@,
        TokenKind::CloseParen => "close parenthesis ')'"@,
        TokenKind::Colon => "colon ':'"@,
        TokenKind::Comma => "comma ','"@,
        TokenKind::Identifier => "identifier"@,
        TokenKind::Number => "number"@,
        TokenKind::DoubleQuotedString => "\"basic string\""@,
        TokenKind::SingleQuotedString => "'literal string'"@,
        TokenKind::MultilineBasicString => "\"\"multiline basic string\"\""@,
        TokenKind::MultilineLiteralString => "'''multiline literal string'''"@,
    }
}

impl TokenKind {
    /// How this kind of token is named in error messages.
    pub fn describe(&self) -> (r: &'static str)
        ensures
            r@ == spec_describe(*self),
    {
        match self {
            TokenKind::Comment => "// comment",
            TokenKind::OpenList => "open bracket '['",
            TokenKind::CloseList => "close bracket ']'",
            TokenKind::OpenBrace => "open brace '{'",
            TokenKind::CloseBrace => "close brace '}'",
            TokenKind::OpenParen => "open parenthesis '('",
            TokenKind::CloseParen => "close parenthesis ')'",
            TokenKind::Colon => "colon ':'",
            TokenKind::Comma => "comma ','",
            TokenKind::Identifier => "identifier",
            TokenKind::Number => "number",
            TokenKind::DoubleQuotedString => "\"basic string\"",
            TokenKind::SingleQuotedString => "'literal string'",
            TokenKind::MultilineBasicString => "\"\"multiline basic string\"\"",
            TokenKind::MultilineLiteralString => "'''multiline literal string'''",
        }
    }
}

} // verus!
