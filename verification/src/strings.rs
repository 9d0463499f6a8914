//! Quoting, escaping and unescaping of strings.
//!
//! A raw string is written out in one of four styles: `"basic"`,
//! `'literal'`, `"""multiline basic"""` or `'''multiline literal'''`.
//! [`escape_and_quote`] picks a style and escapes as needed;
//! [`unescape_and_unquote`] is its inverse, accepting any of the four.

use vstd::prelude::*;

use crate::chars::{char_from_u32, chars_to_string, push_chars, push_str_chars, str_to_chars};

verus! {

/// A control character: the Unicode `Cc` category.
pub open spec fn spec_is_control(c: char) -> bool {
    (c as u32) < 0x20 || (0x7F <= c as u32 && c as u32 <= 0x9F)
}

/// A character with the Unicode `White_Space` property.
pub open spec fn spec_is_whitespace(c: char) -> bool {
    let n = c as u32;
    n == 0x09 || n == 0x0A || n == 0x0B || n == 0x0C || n == 0x0D || n == 0x20 || n == 0x85
        || n == 0xA0 || n == 0x1680 || (0x2000 <= n && n <= 0x200A) || n == 0x2028 || n == 0x2029
        || n == 0x202F || n == 0x205F || n == 0x3000
}

/// The words that may not be used as bare identifiers.
pub open spec fn spec_is_keyword(s: Seq<char>) -> bool {
    s == "true"@ || s == "false"@ || s == "null"@
}

/// The first character of an identifier: `[a-zA-Z_]`.
pub open spec fn spec_is_ident_start(c: char) -> bool {
    ('a' <= c && c <= 'z') || ('A' <= c && c <= 'Z') || c == '_'
}

/// A continuation character of an identifier: `[a-zA-Z0-9_]`.
pub open spec fn spec_is_ident_cont(c: char) -> bool {
    spec_is_ident_start(c) || ('0' <= c && c <= '9')
}

/// A string that can stand bare as a map key: it matches
/// `[a-zA-Z_][a-zA-Z0-9_]*` and is not a keyword.
pub open spec fn spec_is_valid_identifier(s: Seq<char>) -> bool {
    &&& !spec_is_keyword(s)
    &&& s.len() > 0
    &&& spec_is_ident_start(s[0])
    &&& forall|i: int| 1 <= i < s.len() ==> spec_is_ident_cont(#[trigger] s[i])
}

/// Returns `true` if the string matches `[a-zA-Z_][a-zA-Z0-9_]*` and is not
/// one of the keywords `true`, `false`, `null`.
pub fn is_valid_identifier(string: &str) -> (r: bool)
    ensures
        r == spec_is_valid_identifier(string@),
{
    let v = str_to_chars(string);
    proof {
        reveal_strlit("true");
        reveal_strlit("false");
        reveal_strlit("null");
    }
    let n = v.len();
    // Keywords need quoting to avoid confusion with the special values.
    if n == 4 && v[0] == 't' && v[1] == 'r' && v[2] == 'u' && v[3] == 'e' {
        proof {
            assert(v@ =~= "true"@);
        }
        return false;
    }
    if n == 5 && v[0] == 'f' && v[1] == 'a' && v[2] == 'l' && v[3] == 's' && v[4] == 'e' {
        proof {
            assert(v@ =~= "false"@);
        }
        return false;
    }
    if n == 4 && v[0] == 'n' && v[1] == 'u' && v[2] == 'l' && v[3] == 'l' {
        proof {
            assert(v@ =~= "null"@);
        }
        return false;
    }
    assert(!spec_is_keyword(string@));
    if n == 0 {
        return false;
    }
    let c0 = v[0];
    if !(('a' <= c0 && c0 <= 'z') || ('A' <= c0 && c0 <= 'Z') || c0 == '_') {
        return false;
    }
    let mut i: usize = 1;
    while i < n
        invariant
            n == v@.len(),
            v@ == string@,
            1 <= i <= n,
            forall|j: int| 1 <= j < i ==> spec_is_ident_cont(#[trigger] v@[j]),
        decreases n - i,
    {
        let c = v[i];
        if !(('a' <= c && c <= 'z') || ('A' <= c && c <= 'Z') || ('0' <= c && c <= '9') || c
            == '_') {
            return false;
        }
        i = i + 1;
    }
    true
}

/// The lowercase hex digit with value `n`.
pub open spec fn spec_hex_digit(n: int) -> char {
    if n == 0 {
        '0'
    } else if n == 1 {
        '1'
    } else if n == 2 {
        '2'
    } else if n == 3 {
        '3'
    } else if n == 4 {
        '4'
    } else if n == 5 {
        '5'
    } else if n == 6 {
        '6'
    } else if n == 7 {
        '7'
    } else if n == 8 {
        '8'
    } else if n == 9 {
        '9'
    } else if n == 10 {
        'a'
    } else if n == 11 {
        'b'
    } else if n == 12 {
        'c'
    } else if n == 13 {
        'd'
    } else if n == 14 {
        'e'
    } else {
        'f'
    }
}

/// `n` written in lowercase hex, without leading zeros.
pub open spec fn spec_hex_lower(n: nat) -> Seq<char>
    decreases n,
{
    if n < 16 {
        seq![spec_hex_digit(n as int)]
    } else {
        spec_hex_lower(n / 16).push(spec_hex_digit((n % 16) as int))
    }
}

/// How one character is written inside a double-quoted string.
pub open spec fn spec_escape_char(c: char) -> Seq<char> {
    if c == '"' {
        seq!['\\', '"']
    } else if c == '\\' {
        seq!['\\', '\\']
    } else if c == '\n' {
        seq!['\\', 'n']
    } else if c == '\r' {
        seq!['\\', 'r']
    } else if c == '\t' {
        seq!['\\', 't']
    } else if spec_is_control(c) {
        seq!['\\', 'u', '{'] + spec_hex_lower(c as u32 as nat) + seq!['}']
    } else {
        seq![c]
    }
}

/// A whole string escaped for the inside of a double-quoted string.
pub open spec fn spec_escape(s: Seq<char>) -> Seq<char>
    decreases s.len(),
{
    if s.len() == 0 {
        Seq::empty()
    } else {
        spec_escape_char(s[0]) + spec_escape(s.skip(1))
    }
}

/// Characters that force the double-quoted style: control characters,
/// single quotes, and whitespace that must be escaped to stay visible.
pub open spec fn spec_needs_double(s: Seq<char>) -> bool {
    exists|i: int|
        0 <= i < s.len() && (spec_is_control(#[trigger] s[i]) || s[i] == '\'' || s[i] == '\n'
            || s[i] == '\r' || s[i] == '\t')
}

/// Characters that would need escaping in double-quoted style, making the
/// literal single-quoted style shorter.
pub open spec fn spec_prefers_literal(s: Seq<char>) -> bool {
    exists|i: int|
        0 <= i < s.len() && (spec_is_control(#[trigger] s[i]) || s[i] == '"' || s[i] == '\\')
}

/// How a raw string is quoted: double-quoted with escapes by default;
/// single-quoted literal when that avoids escaping and is safe.
pub open spec fn spec_quote(s: Seq<char>) -> Seq<char> {
    if !spec_needs_double(s) && spec_prefers_literal(s) {
        seq!['\''] + s + seq!['\'']
    } else {
        seq!['"'] + spec_escape(s) + seq!['"']
    }
}

/// Appending one character extends the escaped text by that character's
/// escape sequence.
proof fn lemma_escape_push(s: Seq<char>, c: char)
    ensures
        spec_escape(s.push(c)) == spec_escape(s) + spec_escape_char(c),
    decreases s.len(),
{
    if s.len() == 0 {
        let p = s.push(c);
        assert(p[0] == c);
        assert(p.skip(1) =~= Seq::<char>::empty());
        assert(spec_escape(p.skip(1)) == Seq::<char>::empty());
        assert(spec_escape(p) == spec_escape_char(c) + spec_escape(p.skip(1)));
        assert(spec_escape(p) =~= spec_escape_char(c));
        assert(spec_escape(s) == Seq::<char>::empty());
        assert(spec_escape(s) + spec_escape_char(c) =~= spec_escape_char(c));
    } else {
        assert(s.push(c).skip(1) =~= s.skip(1).push(c));
        lemma_escape_push(s.skip(1), c);
        assert(spec_escape(s.push(c)) == spec_escape_char(s[0]) + spec_escape(s.skip(1).push(c)));
        assert(spec_escape_char(s[0]) + (spec_escape(s.skip(1)) + spec_escape_char(c))
            =~= spec_escape_char(s[0]) + spec_escape(s.skip(1)) + spec_escape_char(c));
    }
}

/// Write `n` as lowercase hex digits onto `out`.
fn push_hex_lower(out: &mut Vec<char>, n: u32)
    ensures
        final(out)@ == old(out)@ + spec_hex_lower(n as nat),
    decreases n,
{
    if n < 16 {
        out.push(hex_digit_char(n));
    } else {
        push_hex_lower(out, n / 16);
        out.push(hex_digit_char(n % 16));
    }
}

/// The lowercase hex digit with value `n`.
fn hex_digit_char(n: u32) -> (c: char)
    requires
        n < 16,
    ensures
        c == spec_hex_digit(n as int),
{
    if n == 0 {
        '0'
    } else if n == 1 {
        '1'
    } else if n == 2 {
        '2'
    } else if n == 3 {
        '3'
    } else if n == 4 {
        '4'
    } else if n == 5 {
        '5'
    } else if n == 6 {
        '6'
    } else if n == 7 {
        '7'
    } else if n == 8 {
        '8'
    } else if n == 9 {
        '9'
    } else if n == 10 {
        'a'
    } else if n == 11 {
        'b'
    } else if n == 12 {
        'c'
    } else if n == 13 {
        'd'
    } else if n == 14 {
        'e'
    } else {
        'f'
    }
}

/// True when the character is a control character (Unicode `Cc`).
fn is_control_char(c: char) -> (r: bool)
    ensures
        r == spec_is_control(c),
{
    let n = c as u32;
    n < 0x20 || (0x7F <= n && n <= 0x9F)
}

/// True when the character has the Unicode `White_Space` property.
fn is_whitespace_char(c: char) -> (r: bool)
    ensures
        r == spec_is_whitespace(c),
{
    let n = c as u32;
    n == 0x09 || n == 0x0A || n == 0x0B || n == 0x0C || n == 0x0D || n == 0x20 || n == 0x85
        || n == 0xA0 || n == 0x1680 || (0x2000 <= n && n <= 0x200A) || n == 0x2028 || n == 0x2029
        || n == 0x202F || n == 0x205F || n == 0x3000
}

/// Escape `raw` and wrap it in double quotes.
fn double_quote(raw: &Vec<char>) -> (out: Vec<char>)
    ensures
        out@ == seq!['"'] + spec_escape(raw@) + seq!['"'],
{
    let mut out: Vec<char> = Vec::new();
    out.push('"');
    let n = raw.len();
    let mut i: usize = 0;
    while i < n
        invariant
            n == raw@.len(),
            i <= n,
            out@ == seq!['"'] + spec_escape(raw@.subrange(0, i as int)),
        decreases n - i,
    {
        let c = raw[i];
        proof {
            assert(raw@.subrange(0, i + 1).drop_last() =~= raw@.subrange(0, i as int));
            assert(raw@.subrange(0, i + 1).last() == raw@[i as int]);
            lemma_escape_push(raw@.subrange(0, i as int), raw@[i as int]);
            assert(raw@.subrange(0, i as int).push(raw@[i as int]) =~= raw@.subrange(0, i + 1));
        }
        if c == '"' {
            out.push('\\');
            out.push('"');
        } else if c == '\\' {
            out.push('\\');
            out.push('\\');
        } else if c == '\n' {
            out.push('\\');
            out.push('n');
        } else if c == '\r' {
            out.push('\\');
            out.push('r');
        } else if c == '\t' {
            out.push('\\');
            out.push('t');
        } else if is_control_char(c) {
            out.push('\\');
            out.push('u');
            out.push('{');
            push_hex_lower(&mut out, c as u32);
            out.push('}');
        } else {
            out.push(c);
        }
        proof {
            assert(out@ =~= seq!['"'] + spec_escape(raw@.subrange(0, i + 1)));
        }
        i = i + 1;
    }
    proof {
        assert(raw@.subrange(0, n as int) =~= raw@);
    }
    out.push('"');
    proof {
        assert(out@ =~= seq!['"'] + spec_escape(raw@) + seq!['"']);
    }
    out
}

/// Format a raw string for output, adding quotes and escaping as needed.
///
/// The style of quoting (double-quoted or single-quoted literal) is chosen
/// from the content of the string: double quotes by default, a literal
/// string when the content has characters that double quotes would escape
/// and none that a literal string cannot hold.
pub fn escape_and_quote(raw: &str) -> (out: String)
    ensures
        out@ == spec_quote(raw@),
{
    let v = str_to_chars(raw);
    let n = v.len();

    let mut must_be_double_quoted = false;
    let mut i: usize = 0;
    while i < n
        invariant
            n == v@.len(),
            i <= n,
            v@ == raw@,
            must_be_double_quoted == exists|j: int|
                0 <= j < i && (spec_is_control(#[trigger] v@[j]) || v@[j] == '\'' || v@[j] == '\n'
                    || v@[j] == '\r' || v@[j] == '\t'),
        decreases n - i,
    {
        let c = v[i];
        if is_control_char(c) || c == '\'' || c == '\n' || c == '\r' || c == '\t' {
            must_be_double_quoted = true;
        }
        i = i + 1;
    }
    assert(must_be_double_quoted == spec_needs_double(raw@));

    if must_be_double_quoted {
        let out = double_quote(&v);
        return chars_to_string(&out);
    }

    let mut would_be_shorter_if_literal = false;
    let mut i: usize = 0;
    while i < n
        invariant
            n == v@.len(),
            i <= n,
            v@ == raw@,
            would_be_shorter_if_literal == exists|j: int|
                0 <= j < i && (spec_is_control(#[trigger] v@[j]) || v@[j] == '"' || v@[j] == '\\'),
        decreases n - i,
    {
        let c = v[i];
        if is_control_char(c) || c == '"' || c == '\\' {
            would_be_shorter_if_literal = true;
        }
        i = i + 1;
    }
    assert(would_be_shorter_if_literal == spec_prefers_literal(raw@));

    if would_be_shorter_if_literal {
        // The content benefits from the single-quoted literal style.
        let mut out: Vec<char> = Vec::new();
        out.push('\'');
        push_chars(&mut out, &v);
        out.push('\'');
        proof {
            assert(out@ =~= seq!['\''] + raw@ + seq!['\'']);
        }
        chars_to_string(&out)
    } else {
        // The default.
        let out = double_quote(&v);
        chars_to_string(&out)
    }
}

/// The uppercase hex digit with value `n`.
pub open spec fn spec_hex_digit_upper(n: int) -> char {
    if n == 10 {
        'A'
    } else if n == 11 {
        'B'
    } else if n == 12 {
        'C'
    } else if n == 13 {
        'D'
    } else if n == 14 {
        'E'
    } else if n == 15 {
        'F'
    } else {
        spec_hex_digit(n)
    }
}

/// `n` written in uppercase hex, without leading zeros.
pub open spec fn spec_hex_upper(n: nat) -> Seq<char>
    decreases n,
{
    if n < 16 {
        seq![spec_hex_digit_upper(n as int)]
    } else {
        spec_hex_upper(n / 16).push(spec_hex_digit_upper((n % 16) as int))
    }
}

/// The value of a hex digit, in either case; `None` for other characters.
pub open spec fn spec_hex_val(c: char) -> Option<u32> {
    if '0' <= c && c <= '9' {
        Some((c as u32 - '0' as u32) as u32)
    } else if 'a' <= c && c <= 'f' {
        Some((c as u32 - 'a' as u32 + 10) as u32)
    } else if 'A' <= c && c <= 'F' {
        Some((c as u32 - 'A' as u32 + 10) as u32)
    } else {
        None
    }
}

/// `s` with every carriage return removed.
pub open spec fn spec_strip_cr(s: Seq<char>) -> Seq<char>
    decreases s.len(),
{
    if s.len() == 0 {
        Seq::empty()
    } else if s.last() == '\r' {
        spec_strip_cr(s.drop_last())
    } else {
        spec_strip_cr(s.drop_last()).push(s.last())
    }
}

/// A code point that `char` can hold: not a surrogate, at most `0x10FFFF`.
pub open spec fn spec_is_scalar_value(n: nat) -> bool {
    n < 0xD800 || (0xE000 <= n && n < 0x110000)
}

/// The first index at or after `from` whose character is not whitespace
/// (or the length of `s`).
pub open spec fn spec_skip_whitespace(s: Seq<char>, from: int) -> int
    decreases s.len() - from when from <= s.len()
{
    if from >= s.len() || !spec_is_whitespace(s[from]) {
        from
    } else {
        spec_skip_whitespace(s, from + 1)
    }
}

/// The result of `spec_skip_whitespace` lies between `from` and the length.
pub proof fn lemma_skip_whitespace_bounds(s: Seq<char>, from: int)
    requires
        0 <= from <= s.len(),
    ensures
        from <= spec_skip_whitespace(s, from) <= s.len(),
    decreases s.len() - from,
{
    if !(from >= s.len() || !spec_is_whitespace(s[from])) {
        lemma_skip_whitespace_bounds(s, from + 1);
    }
}

/// What a one-character escape code `\c` stands for, if anything.
pub open spec fn spec_escape_code(c: char) -> Option<char> {
    if c == ' ' {
        Some(' ')
    } else if c == '"' {
        Some('"')
    } else if c == '/' {
        Some('/')
    } else if c == '\'' {
        Some('\'')
    } else if c == '\\' {
        Some('\\')
    } else if c == '`' {
        Some('`')
    } else if c == '$' {
        Some('$')
    } else if c == 'a' {
        Some('\u{07}')
    } else if c == 'b' {
        Some('\u{08}')
    } else if c == 'e' || c == 'E' {
        Some('\u{1B}')
    } else if c == 'f' {
        Some('\u{0C}')
    } else if c == 'n' {
        Some('\n')
    } else if c == 'r' {
        Some('\r')
    } else if c == 't' {
        Some('\t')
    } else if c == 'v' {
        Some('\u{0B}')
    } else {
        None
    }
}

/// Scanning the inside of a `\u{…}` escape, starting just after the `{`,
/// with `number` and `ndigits` accumulated so far: the decoded character
/// and how many characters (including the closing `}`) were consumed, or
/// the error message.
pub open spec fn spec_scan_unicode(s: Seq<char>, number: nat, ndigits: nat) -> Result<
    (char, int),
    Seq<char>,
>
    decreases s.len(),
{
    if s.len() == 0 {
        Err("Unicode escape sequence must end with a closing brace '}'"@)
    } else if s[0] == '}' {
        if spec_is_scalar_value(number) {
            Ok((((number as u32) as char), 1))
        } else {
            Err("Invalid Unicode code point: "@ + spec_hex_upper(number))
        }
    } else if spec_hex_val(s[0]) is Some {
        if ndigits >= 8 {
            Err(
                "Unicode escape sequence is too long: "@ + spec_hex_upper(number)
                    + " (max 8 hex digits allowed)"@,
            )
        } else {
            match spec_scan_unicode(
                s.skip(1),
                number * 16 + spec_hex_val(s[0])->0 as nat,
                ndigits + 1,
            ) {
                Ok((c, k)) => Ok((c, k + 1)),
                Err(m) => Err(m),
            }
        }
    } else if s[0] == '_' {
        // Underscores in the hex sequence are ignored.
        match spec_scan_unicode(s.skip(1), number, ndigits) {
            Ok((c, k)) => Ok((c, k + 1)),
            Err(m) => Err(m),
        }
    } else {
        Err("Invalid character in Unicode escape sequence: "@ + seq![s[0]])
    }
}

/// A successful unicode scan consumes at least one and at most all
/// characters.
pub proof fn lemma_scan_unicode_consumed(s: Seq<char>, number: nat, ndigits: nat)
    ensures
        spec_scan_unicode(s, number, ndigits) matches Ok((c, k)) ==> 1 <= k <= s.len(),
    decreases s.len(),
{
    if s.len() == 0 {
    } else if s[0] == '}' {
    } else if spec_hex_val(s[0]) is Some {
        if ndigits < 8 {
            lemma_scan_unicode_consumed(
                s.skip(1),
                number * 16 + spec_hex_val(s[0])->0 as nat,
                ndigits + 1,
            );
        }
    } else if s[0] == '_' {
        lemma_scan_unicode_consumed(s.skip(1), number, ndigits);
    }
}

/// Decoding the backslash escapes of `s`: the decoded text, or the error
/// message.
pub open spec fn spec_unescape(s: Seq<char>) -> Result<Seq<char>, Seq<char>>
    decreases s.len() via spec_unescape_decreases
{
    if s.len() == 0 {
        Ok(Seq::empty())
    } else if s[0] != '\\' {
        match spec_unescape(s.skip(1)) {
            Ok(t) => Ok(seq![s[0]] + t),
            Err(m) => Err(m),
        }
    } else if s.len() == 1 {
        Err("String ended with a backslash"@)
    } else if spec_escape_code(s[1]) is Some {
        match spec_unescape(s.skip(2)) {
            Ok(t) => Ok(seq![spec_escape_code(s[1])->0] + t),
            Err(m) => Err(m),
        }
    } else if s[1] == '\n' {
        // Escaped newline: ignore it and the whitespace that follows.
        spec_unescape(s.skip(spec_skip_whitespace(s, 2)))
    } else if s[1] == 'u' {
        if s.len() < 3 || s[2] != '{' {
            Err("\\u must be followed by an opening brace, e.g. \\u{1F600}"@)
        } else {
            match spec_scan_unicode(s.skip(3), 0, 0) {
                Ok((c, k)) => match spec_unescape(s.skip(3 + k)) {
                    Ok(t) => Ok(seq![c] + t),
                    Err(m) => Err(m),
                },
                Err(m) => Err(m),
            }
        }
    } else {
        Err("Unknown escape sequence: \\"@ + seq![s[1]])
    }
}

#[via_fn]
proof fn spec_unescape_decreases(s: Seq<char>) {
    if s.len() > 0 && s[0] == '\\' && s.len() > 1 {
        if spec_escape_code(s[1]) is None && s[1] == '\n' {
            lemma_skip_whitespace_bounds(s, 2);
        }
        if spec_escape_code(s[1]) is None && s[1] != '\n' && s[1] == 'u' && s.len() >= 3 && s[2]
            == '{' {
            lemma_scan_unicode_consumed(s.skip(3), 0, 0);
        }
    }
}

/// Removing the quotes and decoding the escapes of a captured string
/// token: the raw text, or the error message.
pub open spec fn spec_unquote(s: Seq<char>) -> Result<Seq<char>, Seq<char>> {
    // Windows newlines are handled by dropping every carriage return.
    let t = spec_strip_cr(s);
    if t.len() >= 3 && t[0] == '\'' && t[1] == '\'' && t[2] == '\'' {
        // Multiline literal string: no escapes; one leading newline is
        // dropped.
        if t.len() >= 6 && t[t.len() - 1] == '\'' && t[t.len() - 2] == '\'' && t[t.len() - 3]
            == '\'' {
            let c = t.subrange(3, t.len() - 3);
            if c.len() > 0 && c[0] == '\n' {
                Ok(c.skip(1))
            } else {
                Ok(c)
            }
        } else {
            Err("Triple-quoted multiline literal string must end with three single quotes"@)
        }
    } else if t.len() >= 1 && t[0] == '\'' {
        // Single-quoted literal string: no escapes, no newlines.
        if t.len() >= 2 && t[t.len() - 1] == '\'' {
            let c = t.subrange(1, t.len() - 1);
            if exists|i: int| 0 <= i < c.len() && c[i] == '\n' {
                Err("Single-quoted literal string may contain newlines"@)
            } else {
                Ok(c)
            }
        } else {
            Err("Single-quoted literal string must end with three single quotes"@)
        }
    } else if t.len() >= 3 && t[0] == '"' && t[1] == '"' && t[2] == '"' {
        // Multiline basic string: escapes are processed.
        if t.len() >= 6 && t[t.len() - 1] == '"' && t[t.len() - 2] == '"' && t[t.len() - 3]
            == '"' {
            spec_unescape(t.subrange(3, t.len() - 3))
        } else {
            Err("Missing ending of multiline double-quoted string"@)
        }
    } else if t.len() >= 1 && t[0] == '"' {
        // Basic string: escapes are processed, newlines are not allowed.
        if t.len() >= 2 && t[t.len() - 1] == '"' {
            let c = t.subrange(1, t.len() - 1);
            if exists|i: int| 0 <= i < c.len() && c[i] == '\n' {
                Err("Double-quoted string may contain newlines"@)
            } else {
                spec_unescape(c)
            }
        } else {
            Err("Double-quoted string must end with a double quote"@)
        }
    } else {
        Err("String must start with a quote (single or double)"@)
    }
}

/// `16 ^ n`.
pub open spec fn spec_pow16(n: nat) -> nat
    decreases n,
{
    if n == 0 {
        1
    } else {
        16 * spec_pow16((n - 1) as nat)
    }
}

/// The value of a hex digit character, in either case.
fn hex_val_char(c: char) -> (r: Option<u32>)
    ensures
        r == spec_hex_val(c),
{
    let n = c as u32;
    if '0' <= c && c <= '9' {
        Some(n - '0' as u32)
    } else if 'a' <= c && c <= 'f' {
        Some(n - 'a' as u32 + 10)
    } else if 'A' <= c && c <= 'F' {
        Some(n - 'A' as u32 + 10)
    } else {
        None
    }
}

/// Write `n` as uppercase hex digits onto `out`.
fn push_hex_upper(out: &mut Vec<char>, n: u32)
    ensures
        final(out)@ == old(out)@ + spec_hex_upper(n as nat),
    decreases n,
{
    if n < 16 {
        let c = if n == 10 {
            'A'
        } else if n == 11 {
            'B'
        } else if n == 12 {
            'C'
        } else if n == 13 {
            'D'
        } else if n == 14 {
            'E'
        } else if n == 15 {
            'F'
        } else {
            hex_digit_char(n)
        };
        out.push(c);
    } else {
        push_hex_upper(out, n / 16);
        let m = n % 16;
        let c = if m == 10 {
            'A'
        } else if m == 11 {
            'B'
        } else if m == 12 {
            'C'
        } else if m == 13 {
            'D'
        } else if m == 14 {
            'E'
        } else if m == 15 {
            'F'
        } else {
            hex_digit_char(m)
        };
        out.push(c);
    }
}

/// Stripping carriage returns from a text that has none leaves it as it
/// is.
proof fn lemma_strip_cr_id(s: Seq<char>)
    requires
        forall|i: int| 0 <= i < s.len() ==> s[i] != '\r',
    ensures
        spec_strip_cr(s) == s,
    decreases s.len(),
{
    if s.len() > 0 {
        lemma_strip_cr_id(s.drop_last());
        assert(spec_strip_cr(s) =~= s);
    }
}

/// Every character of a lowercase hex rendering is a lowercase hex digit.
proof fn lemma_hex_lower_digits(n: nat)
    ensures
        forall|i: int|
            0 <= i < spec_hex_lower(n).len() ==> (('0' <= #[trigger] spec_hex_lower(n)[i]
                && spec_hex_lower(n)[i] <= '9') || ('a' <= spec_hex_lower(n)[i]
                && spec_hex_lower(n)[i] <= 'f')),
    decreases n,
{
    if n < 16 {
        assert(spec_hex_lower(n) == seq![spec_hex_digit(n as int)]);
        assert(spec_hex_lower(n)[0] == spec_hex_digit(n as int));
    } else {
        lemma_hex_lower_digits(n / 16);
        let p = spec_hex_lower(n / 16);
        let d = spec_hex_digit((n % 16) as int);
        assert(spec_hex_lower(n) == p.push(d));
        assert forall|i: int| 0 <= i < spec_hex_lower(n).len() implies (('0'
            <= spec_hex_lower(n)[i] && spec_hex_lower(n)[i] <= '9') || ('a' <= spec_hex_lower(
            n,
        )[i] && spec_hex_lower(n)[i] <= 'f')) by {
            if i < p.len() {
                assert(spec_hex_lower(n)[i] == p[i]);
            } else {
                assert(spec_hex_lower(n)[i] == d);
            }
        }
    }
}

/// Scanning the hex rendering of a small value, followed by the closing
/// brace, decodes back to that value.
proof fn lemma_scan_hex_small(v: nat, rest: Seq<char>)
    requires
        v <= 0x9F,
    ensures
        spec_scan_unicode(spec_hex_lower(v) + seq!['}'] + rest, 0, 0) == Ok::<
            (char, int),
            Seq<char>,
        >((((v as u32) as char), spec_hex_lower(v).len() as int + 1)),
{
    lemma_hex_lower_digits(v);
    if v < 16 {
        let s = spec_hex_lower(v) + seq!['}'] + rest;
        assert(spec_hex_lower(v) == seq![spec_hex_digit(v as int)]);
        assert(s[0] == spec_hex_digit(v as int));
        assert(spec_hex_val(s[0]) == Some(v as u32));
        assert(s.skip(1) =~= seq!['}'] + rest);
        let s1 = seq!['}'] + rest;
        assert(s1[0] == '}');
        assert(spec_scan_unicode(s1, v, 1) == Ok::<(char, int), Seq<char>>((((v as u32) as char),
            1)));
        assert(spec_scan_unicode(s, 0, 0) == Ok::<(char, int), Seq<char>>((((v as u32) as char),
            2)));
    } else {
        let hi = v / 16;
        let lo = v % 16;
        assert(hi < 16);
        assert(spec_hex_lower(v) == spec_hex_lower(hi).push(spec_hex_digit(lo as int)));
        assert(spec_hex_lower(hi) == seq![spec_hex_digit(hi as int)]);
        assert(spec_hex_lower(v) =~= seq![spec_hex_digit(hi as int), spec_hex_digit(lo as int)]);
        let s = spec_hex_lower(v) + seq!['}'] + rest;
        assert(s[0] == spec_hex_digit(hi as int));
        assert(spec_hex_val(s[0]) == Some(hi as u32));
        assert(s.skip(1) =~= seq![spec_hex_digit(lo as int)] + (seq!['}'] + rest));
        let s1 = seq![spec_hex_digit(lo as int)] + (seq!['}'] + rest);
        assert(s1[0] == spec_hex_digit(lo as int));
        assert(spec_hex_val(s1[0]) == Some(lo as u32));
        assert(s1.skip(1) =~= seq!['}'] + rest);
        let s2 = seq!['}'] + rest;
        assert(s2[0] == '}');
        assert(hi * 16 + lo == v);
        assert(spec_scan_unicode(s2, v, 2) == Ok::<(char, int), Seq<char>>((((v as u32) as char),
            1)));
        assert(spec_scan_unicode(s1, hi, 1) == Ok::<(char, int), Seq<char>>((((v as u32) as char),
            2)));
        assert(spec_scan_unicode(s, 0, 0) == Ok::<(char, int), Seq<char>>((((v as u32) as char),
            3)));
    }
}

/// The escaped form of a text holds no raw newline or carriage return,
/// and never starts with a double quote.
proof fn lemma_escape_safe(s: Seq<char>)
    ensures
        forall|i: int|
            0 <= i < spec_escape(s).len() ==> #[trigger] spec_escape(s)[i] != '\n' && spec_escape(
                s,
            )[i] != '\r',
        spec_escape(s).len() > 0 ==> spec_escape(s)[0] != '"',
    decreases s.len(),
{
    if s.len() > 0 {
        lemma_escape_safe(s.skip(1));
        let e = spec_escape_char(s[0]);
        if spec_is_control(s[0]) && s[0] != '\n' && s[0] != '\r' && s[0] != '\t' {
            lemma_hex_lower_digits(s[0] as u32 as nat);
        }
        assert(forall|i: int| 0 <= i < e.len() ==> e[i] != '\n' && e[i] != '\r');
        assert(forall|i: int|
            0 <= i < spec_escape(s).len() ==> #[trigger] spec_escape(s)[i] == (if i < e.len() {
                e[i]
            } else {
                spec_escape(s.skip(1))[i - e.len()]
            }));
    }
}

/// Unescaping undoes escaping: decoding the escaped form of any text
/// yields that text.
pub proof fn lemma_unescape_escape(raw: Seq<char>)
    ensures
        spec_unescape(spec_escape(raw)) == Ok::<Seq<char>, Seq<char>>(raw),
    decreases raw.len(),
{
    if raw.len() == 0 {
        assert(spec_unescape(spec_escape(raw)) == Ok::<Seq<char>, Seq<char>>(Seq::empty()));
        assert(raw =~= Seq::<char>::empty());
    } else {
        let c = raw[0];
        let e = spec_escape_char(c);
        let t = spec_escape(raw);
        let r = spec_escape(raw.skip(1));
        assert(t == e + r);
        lemma_unescape_escape(raw.skip(1));
        if c == '"' || c == '\\' || c == '\n' || c == '\r' || c == '\t' {
            // A two-character escape: backslash plus a code.
            assert(t[0] == '\\');
            assert(t.len() >= 2);
            assert(spec_escape_code(t[1]) == Some(c));
            assert(t.skip(2) =~= r);
            assert(seq![c] + raw.skip(1) =~= raw);
        } else if spec_is_control(c) {
            // A unicode escape: `\u{…}`.
            assert(t[0] == '\\');
            assert(t[1] == 'u');
            assert(spec_escape_code('u') is None);
            assert(t[2] == '{');
            let h = spec_hex_lower(c as u32 as nat);
            assert(t.skip(3) =~= h + seq!['}'] + r);
            lemma_scan_hex_small(c as u32 as nat, r);
            vstd::utf8::char_u32_cast(c, c as u32);
            assert(c as u32 <= 0x9F);
            assert(((c as u32 as nat) as u32) == c as u32);
            assert(((c as u32 as nat) as u32) as char == c);
            assert(spec_scan_unicode(t.skip(3), 0, 0) == Ok::<(char, int), Seq<char>>((c, h.len()
                as int + 1)));
            assert(t.skip(3 + (h.len() as int + 1)) =~= r);
            assert(seq![c] + raw.skip(1) =~= raw);
        } else {
            // The character stands for itself.
            assert(e =~= seq![c]);
            assert(t[0] == c);
            assert(c != '\\');
            assert(t.skip(1) =~= r);
            assert(seq![c] + raw.skip(1) =~= raw);
        }
    }
}

/// Quoting round-trips: unquoting the quoted form of any raw text yields
/// the raw text again, whatever quote style was chosen.
pub proof fn lemma_quote_round_trip(raw: Seq<char>)
    ensures
        spec_unquote(spec_quote(raw)) == Ok::<Seq<char>, Seq<char>>(raw),
{
    if !spec_needs_double(raw) && spec_prefers_literal(raw) {
        // Single-quoted literal style.
        let q = seq!['\''] + raw + seq!['\''];
        assert(spec_quote(raw) == q);
        assert(forall|i: int| 0 <= i < raw.len() ==> raw[i] != '\r' && raw[i] != '\n' && raw[i]
            != '\'');
        assert(forall|i: int| 0 <= i < q.len() ==> q[i] != '\r');
        lemma_strip_cr_id(q);
        assert(raw.len() > 0);
        assert(q[0] == '\'' && q[1] == raw[0] && q[1] != '\'');
        assert(q[q.len() - 1] == '\'');
        let c = q.subrange(1, q.len() - 1);
        assert(c =~= raw);
    } else {
        // Double-quoted style.
        let e = spec_escape(raw);
        let q = seq!['"'] + e + seq!['"'];
        assert(spec_quote(raw) == q);
        lemma_escape_safe(raw);
        assert(forall|i: int| 0 <= i < q.len() ==> q[i] != '\r');
        lemma_strip_cr_id(q);
        assert(q[0] == '"');
        if q.len() >= 3 && q[1] == '"' && q[2] == '"' {
            // Cannot happen: the escaped text never starts with a quote.
            assert(e.len() >= 1 && e[0] == q[1]);
            assert(false);
        }
        assert(q[q.len() - 1] == '"');
        let c = q.subrange(1, q.len() - 1);
        assert(c =~= e);
        assert(forall|i: int| 0 <= i < c.len() ==> c[i] != '\n');
        lemma_unescape_escape(raw);
    }
}

/// The error message for a code point that is not valid.
fn invalid_code_point_message(number: u32) -> (r: String)
    ensures
        r@ == "Invalid Unicode code point: "@ + spec_hex_upper(number as nat),
{
    let mut m: Vec<char> = Vec::new();
    push_str_chars(&mut m, "Invalid Unicode code point: ");
    push_hex_upper(&mut m, number);
    chars_to_string(&m)
}

/// Prepending an already-decoded prefix to the outcome of decoding the
/// rest.
pub open spec fn spec_with_prefix(p: Seq<char>, r: Result<Seq<char>, Seq<char>>) -> Result<
    Seq<char>,
    Seq<char>,
> {
    match r {
        Ok(t) => Ok(p + t),
        Err(m) => Err(m),
    }
}

proof fn lemma_with_prefix_assoc(p1: Seq<char>, p2: Seq<char>, r: Result<Seq<char>, Seq<char>>)
    ensures
        spec_with_prefix(p1, spec_with_prefix(p2, r)) == spec_with_prefix(p1 + p2, r),
{
    match r {
        Ok(t) => {
            assert(p1 + (p2 + t) =~= (p1 + p2) + t);
        },
        Err(m) => {},
    }
}

/// Scan the inside of a `\u{…}` escape in `v[from..to]`, starting just
/// after the `{`: the decoded character and how many characters
/// (including the closing `}`) were consumed, or the error message.
fn scan_unicode(v: &Vec<char>, from: usize, to: usize) -> (r: Result<(char, usize), String>)
    requires
        from <= to <= v@.len(),
    ensures
        match r {
            Ok((c, k)) => spec_scan_unicode(v@.subrange(from as int, to as int), 0, 0) == Ok::<
                (char, int),
                Seq<char>,
            >((c, k as int)) && 1 <= k <= to - from,
            Err(e) => spec_scan_unicode(v@.subrange(from as int, to as int), 0, 0) == Err::<
                (char, int),
                Seq<char>,
            >(e@),
        },
{
    let ghost whole = v@.subrange(from as int, to as int);
    let mut i: usize = from;
    let mut number: u32 = 0;
    let mut num_chars: u32 = 0;
    loop
        invariant
            from <= i <= to <= v@.len(),
            whole == v@.subrange(from as int, to as int),
            num_chars <= 8,
            (number as nat) < spec_pow16(num_chars as nat),
            spec_scan_unicode(whole, 0, 0) == (match spec_scan_unicode(
                v@.subrange(i as int, to as int),
                number as nat,
                num_chars as nat,
            ) {
                Ok((c, k)) => Ok::<(char, int), Seq<char>>((c, k + (i - from))),
                Err(m) => Err::<(char, int), Seq<char>>(m),
            }),
        decreases to - i,
    {
        let ghost s = v@.subrange(i as int, to as int);
        if i >= to {
            assert(s.len() == 0);
            return Err(String::from_str(
                "Unicode escape sequence must end with a closing brace '}'",
            ));
        }
        let c = v[i];
        assert(c == s[0]);
        proof {
            assert(s.skip(1) =~= v@.subrange(i + 1, to as int));
        }
        if c == '}' {
            let valid = number < 0xD800 || (0xE000 <= number && number < 0x110000);
            if valid {
                match char_from_u32(number) {
                    Some(ch) => {
                        proof {
                            vstd::utf8::char_u32_cast(ch, number);
                        }
                        return Ok((ch, i + 1 - from));
                    },
                    None => {
                        // Unreachable: the validity test above is exactly
                        // the condition under which a code point is a char.
                        return Err(invalid_code_point_message(number));
                    },
                }
            } else {
                return Err(invalid_code_point_message(number));
            }
        }
        match hex_val_char(c) {
            Some(digit) => {
                if num_chars >= 8 {
                    let mut m: Vec<char> = Vec::new();
                    push_str_chars(&mut m, "Unicode escape sequence is too long: ");
                    push_hex_upper(&mut m, number);
                    push_str_chars(&mut m, " (max 8 hex digits allowed)");
                    proof {
                        assert(m@ =~= "Unicode escape sequence is too long: "@ + spec_hex_upper(
                            number as nat,
                        ) + " (max 8 hex digits allowed)"@);
                    }
                    return Err(chars_to_string(&m));
                }
                proof {
                    reveal_with_fuel(spec_pow16, 10);
                    assert((number as nat) * 16 + (digit as nat) < spec_pow16(num_chars as nat)
                        * 16);
                }
                number = number * 16 + digit;
                num_chars = num_chars + 1;
                i = i + 1;
            },
            None => {
                if c == '_' {
                    // Underscores in the hex sequence are ignored.
                    i = i + 1;
                } else {
                    let mut m: Vec<char> = Vec::new();
                    push_str_chars(&mut m, "Invalid character in Unicode escape sequence: ");
                    m.push(c);
                    proof {
                        assert(m@ =~= "Invalid character in Unicode escape sequence: "@
                            + seq![c]);
                    }
                    return Err(chars_to_string(&m));
                }
            },
        }
    }
}

/// Decode the backslash escapes of `v[from..to]`.
fn unescape_range(v: &Vec<char>, from: usize, to: usize) -> (r: Result<Vec<char>, String>)
    requires
        from <= to <= v@.len(),
    ensures
        match r {
            Ok(w) => spec_unescape(v@.subrange(from as int, to as int)) == Ok::<
                Seq<char>,
                Seq<char>,
            >(w@),
            Err(e) => spec_unescape(v@.subrange(from as int, to as int)) == Err::<
                Seq<char>,
                Seq<char>,
            >(e@),
        },
{
    let ghost whole = v@.subrange(from as int, to as int);
    let mut out: Vec<char> = Vec::new();
    let mut i: usize = from;
    while i < to
        invariant
            from <= i <= to <= v@.len(),
            whole == v@.subrange(from as int, to as int),
            spec_unescape(whole) == spec_with_prefix(
                out@,
                spec_unescape(v@.subrange(i as int, to as int)),
            ),
        decreases to - i,
    {
        let ghost s = v@.subrange(i as int, to as int);
        let c = v[i];
        assert(c == s[0]);
        if c != '\\' {
            proof {
                assert(s.skip(1) =~= v@.subrange(i + 1, to as int));
                lemma_with_prefix_assoc(out@, seq![c], spec_unescape(s.skip(1)));
                assert(out@ + seq![c] =~= out@.push(c));
            }
            out.push(c);
            i = i + 1;
        } else if i + 1 >= to {
            assert(s.len() == 1);
            return Err(String::from_str("String ended with a backslash"));
        } else {
            let code = v[i + 1];
            assert(code == s[1]);
            match escape_code_char(code) {
                Some(d) => {
                    proof {
                        assert(s.skip(2) =~= v@.subrange(i + 2, to as int));
                        lemma_with_prefix_assoc(out@, seq![d], spec_unescape(s.skip(2)));
                        assert(out@ + seq![d] =~= out@.push(d));
                    }
                    out.push(d);
                    i = i + 2;
                },
                None => {
                    if code == '\n' {
                        // Escaped newline: ignore it and the following
                        // whitespace.
                        let mut j: usize = i + 2;
                        while j < to && is_whitespace_char(v[j])
                            invariant
                                i + 2 <= j <= to <= v@.len(),
                                s == v@.subrange(i as int, to as int),
                                spec_skip_whitespace(s, 2) == spec_skip_whitespace(
                                    s,
                                    j - i,
                                ),
                            decreases to - j,
                        {
                            j = j + 1;
                        }
                        proof {
                            assert(spec_skip_whitespace(s, (j - i) as int) == (j - i) as int);
                            assert(s.skip((j - i) as int) =~= v@.subrange(j as int, to as int));
                        }
                        i = j;
                    } else if code == 'u' {
                        if i + 2 >= to || v[i + 2] != '{' {
                            return Err(String::from_str(
                                "\\u must be followed by an opening brace, e.g. \\u{1F600}",
                            ));
                        }
                        proof {
                            assert(s.len() >= 3 && s[2] == '{');
                            assert(s.skip(3) =~= v@.subrange(i + 3, to as int));
                        }
                        match scan_unicode(v, i + 3, to) {
                            Ok((ch, k)) => {
                                proof {
                                    assert(s.skip(3 + k) =~= v@.subrange(
                                        i + 3 + k,
                                        to as int,
                                    ));
                                    lemma_with_prefix_assoc(
                                        out@,
                                        seq![ch],
                                        spec_unescape(s.skip(3 + k)),
                                    );
                                    assert(out@ + seq![ch] =~= out@.push(ch));
                                }
                                out.push(ch);
                                i = i + 3 + k;
                            },
                            Err(e) => {
                                return Err(e);
                            },
                        }
                    } else {
                        let mut m: Vec<char> = Vec::new();
                        push_str_chars(&mut m, "Unknown escape sequence: \\");
                        m.push(code);
                        proof {
                            assert(m@ =~= "Unknown escape sequence: \\"@ + seq![code]);
                        }
                        return Err(chars_to_string(&m));
                    }
                },
            }
        }
    }
    proof {
        assert(v@.subrange(i as int, to as int).len() == 0);
    }
    Ok(out)
}

/// What a one-character escape code `\c` stands for, if anything.
fn escape_code_char(c: char) -> (r: Option<char>)
    ensures
        r == spec_escape_code(c),
{
    if c == ' ' {
        Some(' ')
    } else if c == '"' {
        Some('"')
    } else if c == '/' {
        Some('/')
    } else if c == '\'' {
        Some('\'')
    } else if c == '\\' {
        Some('\\')
    } else if c == '`' {
        Some('`')
    } else if c == '$' {
        Some('$')
    } else if c == 'a' {
        Some('\u{07}')
    } else if c == 'b' {
        Some('\u{08}')
    } else if c == 'e' || c == 'E' {
        Some('\u{1B}')
    } else if c == 'f' {
        Some('\u{0C}')
    } else if c == 'n' {
        Some('\n')
    } else if c == 'r' {
        Some('\r')
    } else if c == 't' {
        Some('\t')
    } else if c == 'v' {
        Some('\u{0B}')
    } else {
        None
    }
}

/// True when `v[from..to]` holds a newline.
fn range_contains_newline(v: &Vec<char>, from: usize, to: usize) -> (r: bool)
    requires
        from <= to <= v@.len(),
    ensures
        r == exists|i: int|
            0 <= i < to - from && v@.subrange(from as int, to as int)[i] == '\n',
{
    let mut i: usize = from;
    while i < to
        invariant
            from <= i <= to <= v@.len(),
            forall|j: int| from <= j < i ==> v@[j] != '\n',
        decreases to - i,
    {
        if v[i] == '\n' {
            assert(v@.subrange(from as int, to as int)[i - from] == '\n');
            return true;
        }
        i = i + 1;
    }
    false
}

/// Remove the quotes and unescape a captured string token.
///
/// Any of the four quote styles is accepted; which one is detected from
/// the delimiters. Escapes are decoded only in the two double-quoted
/// styles. Carriage returns are dropped before anything else, so Windows
/// newlines read as plain newlines.
pub fn unescape_and_unquote(escaped: &str) -> (r: Result<String, String>)
    ensures
        match r {
            Ok(s) => spec_unquote(escaped@) == Ok::<Seq<char>, Seq<char>>(s@),
            Err(e) => spec_unquote(escaped@) == Err::<Seq<char>, Seq<char>>(e@),
        },
{
    let v0 = str_to_chars(escaped);
    // Handle Windows newlines by dropping all carriage returns, turning
    // `\r\n` into `\n`.
    let mut v: Vec<char> = Vec::new();
    let n0 = v0.len();
    let mut i: usize = 0;
    while i < n0
        invariant
            i <= n0 == v0@.len(),
            v0@ == escaped@,
            v@ == spec_strip_cr(v0@.subrange(0, i as int)),
        decreases n0 - i,
    {
        proof {
            assert(v0@.subrange(0, i + 1).drop_last() =~= v0@.subrange(0, i as int));
        }
        if v0[i] != '\r' {
            v.push(v0[i]);
        }
        i = i + 1;
    }
    proof {
        assert(v0@.subrange(0, n0 as int) =~= v0@);
    }
    let n = v.len();
    let ghost t = spec_strip_cr(escaped@);
    assert(v@ == t);

    if n >= 3 && v[0] == '\'' && v[1] == '\'' && v[2] == '\'' {
        // Multiline literal string: no escape sequences, but strip the
        // leading newline (if any).
        if n >= 6 && v[n - 1] == '\'' && v[n - 2] == '\'' && v[n - 3] == '\'' {
            let start = if n >= 7 && v[3] == '\n' {
                4
            } else {
                3
            };
            proof {
                let c = t.subrange(3, t.len() - 3);
                if c.len() > 0 && c[0] == '\n' {
                    assert(c.skip(1) =~= t.subrange(4, t.len() - 3));
                } else {
                    assert(c =~= t.subrange(3, t.len() - 3));
                }
            }
            let mut out: Vec<char> = Vec::new();
            let mut i: usize = start;
            while i < n - 3
                invariant
                    start <= i <= n - 3,
                    n == v@.len(),
                    6 <= n,
                    out@ == v@.subrange(start as int, i as int),
                decreases n - 3 - i,
            {
                out.push(v[i]);
                i = i + 1;
                proof {
                    assert(out@ =~= v@.subrange(start as int, i as int));
                }
            }
            Ok(chars_to_string(&out))
        } else {
            Err(String::from_str(
                "Triple-quoted multiline literal string must end with three single quotes",
            ))
        }
    } else if n >= 1 && v[0] == '\'' {
        // Single-quoted literal string: no escape sequences.
        if n >= 2 && v[n - 1] == '\'' {
            if range_contains_newline(&v, 1, n - 1) {
                Err(String::from_str("Single-quoted literal string may contain newlines"))
            } else {
                let mut out: Vec<char> = Vec::new();
                let mut i: usize = 1;
                while i < n - 1
                    invariant
                        1 <= i <= n - 1,
                        n == v@.len(),
                        2 <= n,
                        out@ == v@.subrange(1, i as int),
                    decreases n - 1 - i,
                {
                    out.push(v[i]);
                    i = i + 1;
                    proof {
                        assert(out@ =~= v@.subrange(1, i as int));
                    }
                }
                Ok(chars_to_string(&out))
            }
        } else {
            Err(String::from_str("Single-quoted literal string must end with three single quotes"))
        }
    } else if n >= 3 && v[0] == '"' && v[1] == '"' && v[2] == '"' {
        // Multiline double-quoted string: can contain escape sequences.
        if n >= 6 && v[n - 1] == '"' && v[n - 2] == '"' && v[n - 3] == '"' {
            match unescape_range(&v, 3, n - 3) {
                Ok(w) => Ok(chars_to_string(&w)),
                Err(e) => Err(e),
            }
        } else {
            Err(String::from_str("Missing ending of multiline double-quoted string"))
        }
    } else if n >= 1 && v[0] == '"' {
        // Simple double-quoted string: can contain escape sequences.
        if n >= 2 && v[n - 1] == '"' {
            if range_contains_newline(&v, 1, n - 1) {
                Err(String::from_str("Double-quoted string may contain newlines"))
            } else {
                match unescape_range(&v, 1, n - 1) {
                    Ok(w) => Ok(chars_to_string(&w)),
                    Err(e) => Err(e),
                }
            }
        } else {
            Err(String::from_str("Double-quoted string must end with a double quote"))
        }
    } else {
        Err(String::from_str("String must start with a quote (single or double)"))
    }
}

} // verus!
