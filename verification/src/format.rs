//! Rendering a [`TokenTree`] back to canonical text.

use vstd::prelude::*;

use crate::chars::{chars_to_string, push_str_chars};
use crate::token_tree::{
    spec_key_values, spec_opt_string, spec_strings, spec_tree, spec_trees, spec_value, SpecTokenKeyValue,
    SpecTokenTree, SpecTokenValue, TokenKeyValue, TokenList, TokenMap, TokenTree, TokenValue,
    TokenVariant,
};

verus! {

/// How to format a document.
///
/// If the options are messed up too much (e.g. an indentation that is not
/// whitespace) the output may not be valid syntax any more.
#[derive(Clone, Debug)]
pub struct FormatOptions {
    /// `"\t"`
    pub indentation: String,
    /// `"\n"`
    pub newline: String,
    /// `" "`
    pub space_before_suffix_comment: String,
    /// `": "`
    pub key_value_separator: String,
    /// Surround the top-level map in `{ }` with an extra level of
    /// indentation.
    pub always_include_outer_braces: bool,
}

/// The mathematical content of [`FormatOptions`].
pub struct SpecFormatOptions {
    pub indentation: Seq<char>,
    pub newline: Seq<char>,
    pub space_before_suffix_comment: Seq<char>,
    pub key_value_separator: Seq<char>,
    pub always_include_outer_braces: bool,
}

impl View for FormatOptions {
    type V = SpecFormatOptions;

    open spec fn view(&self) -> SpecFormatOptions {
        SpecFormatOptions {
            indentation: self.indentation@,
            newline: self.newline@,
            space_before_suffix_comment: self.space_before_suffix_comment@,
            key_value_separator: self.key_value_separator@,
            always_include_outer_braces: self.always_include_outer_braces,
        }
    }
}

impl FormatOptions {
    /// The default options: tab indentation, newline `"\n"`, separator
    /// `": "`, no outer braces.
    ///
    /// A tab character allows users to configure their preferred
    /// indentation size in their editor, which makes it the best default.
    pub fn new() -> (r: FormatOptions)
        ensures
            r@.indentation == "\t"@,
            r@.newline == "\n"@,
            r@.space_before_suffix_comment == " "@,
            r@.key_value_separator == ": "@,
            r@.always_include_outer_braces == false,
    {
        FormatOptions {
            indentation: String::from_str("\t"),
            newline: String::from_str("\n"),
            space_before_suffix_comment: String::from_str(" "),
            key_value_separator: String::from_str(": "),
            always_include_outer_braces: false,
        }
    }

    /// Set the indentation string.
    pub fn with_indentation(self, indentation: String) -> (r: FormatOptions)
        ensures
            r@ == (SpecFormatOptions { indentation: indentation@, ..self@ }),
    {
        FormatOptions { indentation, ..self }
    }

    /// Set the newline string.
    pub fn with_newline(self, newline: String) -> (r: FormatOptions)
        ensures
            r@ == (SpecFormatOptions { newline: newline@, ..self@ }),
    {
        FormatOptions { newline, ..self }
    }
}

impl Default for FormatOptions {
    fn default() -> (r: FormatOptions)
        ensures
            r@.indentation == "\t"@,
            r@.newline == "\n"@,
            r@.space_before_suffix_comment == " "@,
            r@.key_value_separator == ": "@,
            r@.always_include_outer_braces == false,
    {
        FormatOptions::new()
    }
}

/// The indentation text for nesting level `n`.
pub open spec fn fmt_indent(o: SpecFormatOptions, n: nat) -> Seq<char>
    decreases n,
{
    if n == 0 {
        Seq::empty()
    } else {
        fmt_indent(o, (n - 1) as nat) + o.indentation
    }
}

/// Comments, each on its own indented line.
pub open spec fn fmt_comments(cs: Seq<Seq<char>>, o: SpecFormatOptions, ind: nat) -> Seq<char>
    decreases cs.len(),
{
    if cs.len() == 0 {
        Seq::empty()
    } else {
        fmt_indent(o, ind) + cs[0] + seq!['\n'] + fmt_comments(cs.skip(1), o, ind)
    }
}

/// A suffix comment after a single space, or nothing.
pub open spec fn fmt_suffix(sfx: Option<Seq<char>>) -> Seq<char> {
    match sfx {
        Some(c) => seq![' '] + c,
        None => Seq::empty(),
    }
}

/// Whether a text holds a newline.
pub open spec fn spec_has_newline(s: Seq<char>) -> bool {
    exists|i: int| 0 <= i < s.len() && s[i] == '\n'
}

/// A value with no comments of its own and no structure that needs more
/// than one line.
pub open spec fn spec_is_simple(t: SpecTokenTree) -> bool {
    &&& t.prefix_comments.len() == 0
    &&& t.suffix_comment is None
    &&& match t.value {
        SpecTokenValue::Identifier(_) => true,
        SpecTokenValue::Number(_) => true,
        SpecTokenValue::QuotedString(s) => !spec_has_newline(s),
        SpecTokenValue::List(vs, cl) => vs.len() == 0 && cl.len() == 0,
        SpecTokenValue::Object(kvs, cl) => kvs.len() == 0 && cl.len() == 0,
        SpecTokenValue::Variant(_, _, vs, cl) => vs.len() == 0 && cl.len() == 0,
    }
}

/// Whether every element is simple.
pub open spec fn spec_all_simple(vs: Seq<SpecTokenTree>) -> bool {
    forall|i: int| 0 <= i < vs.len() ==> spec_is_simple(#[trigger] vs[i])
}

/// Whether every element is a number literal.
pub open spec fn spec_all_numbers(vs: Seq<SpecTokenTree>) -> bool {
    forall|i: int| 0 <= i < vs.len() ==> (#[trigger] vs[i].value) is Number
}

/// The conservatively estimated width of the elements rendered on one
/// line: each string in its escaped length, a stand-in width of 5 for
/// any other atom, plus 2 per separator.
pub open spec fn spec_estimated_width(vs: Seq<SpecTokenTree>) -> int
    decreases vs.len(),
{
    if vs.len() == 0 {
        0
    } else {
        (match vs[0].value {
            SpecTokenValue::QuotedString(s) => s.len() as int,
            _ => 5,
        }) + 2 + spec_estimated_width(vs.skip(1))
    }
}

/// Whether a run of values is rendered on a single line: all simple, and
/// either at most four numbers, or at most four values whose estimated
/// width stays under sixty characters.
pub open spec fn spec_values_on_one_line(vs: Seq<SpecTokenTree>) -> bool {
    &&& spec_all_simple(vs)
    &&& (if vs.len() <= 4 && spec_all_numbers(vs) {
        true
    } else if vs.len() > 4 {
        false
    } else {
        spec_estimated_width(vs) < 60
    })
}

/// Whether a list is rendered on a single line.
pub open spec fn spec_list_on_one_line(vs: Seq<SpecTokenTree>, cl: Seq<Seq<char>>) -> bool {
    cl.len() == 0 && spec_values_on_one_line(vs)
}

/// Whether any element carries a prefix comment; elements are then
/// separated by blank lines.
pub open spec fn spec_any_prefixed(vs: Seq<SpecTokenTree>) -> bool {
    exists|i: int| 0 <= i < vs.len() && (#[trigger] vs[i]).prefix_comments.len() > 0
}

/// Whether any entry's key carries a prefix comment.
pub open spec fn spec_any_key_prefixed(kvs: Seq<SpecTokenKeyValue>) -> bool {
    exists|i: int| 0 <= i < kvs.len() && (#[trigger] kvs[i]).key.prefix_comments.len() > 0
}

/// The values of a list or variant rendered on one line, comma
/// separated, from element `lo` on.
pub open spec fn fmt_inline_values(
    vs: Seq<SpecTokenTree>,
    o: SpecFormatOptions,
    ind: nat,
    lo: int,
) -> Seq<char>
    decreases vs, 0int, vs.len() - lo when 0 <= lo <= vs.len()
{
    if lo >= vs.len() {
        Seq::empty()
    } else {
        fmt_value(vs[lo].value, o, ind) + (if lo + 1 < vs.len() {
            ", "@
        } else {
            Seq::empty()
        }) + fmt_inline_values(vs, o, ind, lo + 1)
    }
}

/// The elements of a multi-line list or variant body, each on its own
/// line, with blank lines between them when `blanks` is set, from
/// element `lo` on.
pub open spec fn fmt_block_values(
    vs: Seq<SpecTokenTree>,
    o: SpecFormatOptions,
    ind: nat,
    blanks: bool,
    lo: int,
) -> Seq<char>
    decreases vs, 0int, vs.len() - lo when 0 <= lo <= vs.len()
{
    if lo >= vs.len() {
        Seq::empty()
    } else {
        fmt_tree_indented(vs[lo], o, ind) + seq!['\n'] + (if blanks && lo + 1 < vs.len() {
            seq!['\n']
        } else {
            Seq::empty()
        }) + fmt_block_values(vs, o, ind, blanks, lo + 1)
    }
}

/// The body of a multi-line list: its elements, then the closing
/// comments, with a separating blank line when comments force blanks.
pub open spec fn fmt_list_content(
    vs: Seq<SpecTokenTree>,
    cl: Seq<Seq<char>>,
    o: SpecFormatOptions,
    ind: nat,
) -> Seq<char>
    decreases vs, 1int, 0int,
{
    let blanks = spec_any_prefixed(vs);
    fmt_block_values(vs, o, ind, blanks, 0) + (if blanks && cl.len() > 0 {
        seq!['\n']
    } else {
        Seq::empty()
    }) + fmt_comments(cl, o, ind)
}

/// One `key: value` entry on its own indented line.
pub open spec fn fmt_key_value(kv: SpecTokenKeyValue, o: SpecFormatOptions, ind: nat) -> Seq<
    char,
>
    decreases kv, 2int, 0int,
{
    fmt_comments(kv.key.prefix_comments, o, ind) + fmt_comments(kv.value.prefix_comments, o, ind)
        + fmt_indent(o, ind) + fmt_value(kv.key.value, o, ind) + o.key_value_separator + fmt_value(
        kv.value.value,
        o,
        ind,
    ) + fmt_suffix(kv.value.suffix_comment)
}

/// The entries of a map body, each on its own line, with blank lines
/// between them when `blanks` is set, from entry `lo` on.
pub open spec fn fmt_block_entries(
    kvs: Seq<SpecTokenKeyValue>,
    o: SpecFormatOptions,
    ind: nat,
    blanks: bool,
    lo: int,
) -> Seq<char>
    decreases kvs, 0int, kvs.len() - lo when 0 <= lo <= kvs.len()
{
    if lo >= kvs.len() {
        Seq::empty()
    } else {
        fmt_key_value(kvs[lo], o, ind) + seq!['\n'] + (if blanks && lo + 1 < kvs.len() {
            seq!['\n']
        } else {
            Seq::empty()
        }) + fmt_block_entries(kvs, o, ind, blanks, lo + 1)
    }
}

/// The body of a map: its entries, then the closing comments, with a
/// separating blank line when comments force blanks.
pub open spec fn fmt_map_content(
    kvs: Seq<SpecTokenKeyValue>,
    cl: Seq<Seq<char>>,
    o: SpecFormatOptions,
    ind: nat,
) -> Seq<char>
    decreases kvs, 1int, 0int,
{
    let blanks = spec_any_key_prefixed(kvs);
    fmt_block_entries(kvs, o, ind, blanks, 0) + (if blanks && cl.len() > 0 {
        seq!['\n']
    } else {
        Seq::empty()
    }) + fmt_comments(cl, o, ind)
}

/// A list rendered at nesting level `ind`.
pub open spec fn fmt_list(
    vs: Seq<SpecTokenTree>,
    cl: Seq<Seq<char>>,
    o: SpecFormatOptions,
    ind: nat,
) -> Seq<char>
    decreases vs, 2int, 0int,
{
    if vs.len() == 0 && cl.len() == 0 {
        "[]"@
    } else if spec_list_on_one_line(vs, cl) {
        seq!['['] + fmt_inline_values(vs, o, ind, 0) + seq![']']
    } else {
        seq!['['] + seq!['\n'] + fmt_list_content(vs, cl, o, ind + 1) + fmt_indent(o, ind)
            + seq![']']
    }
}

/// A map rendered at nesting level `ind`.
pub open spec fn fmt_map(
    kvs: Seq<SpecTokenKeyValue>,
    cl: Seq<Seq<char>>,
    o: SpecFormatOptions,
    ind: nat,
) -> Seq<char>
    decreases kvs, 2int, 0int,
{
    if kvs.len() == 0 && cl.len() == 0 {
        "{}"@
    } else {
        seq!['{'] + seq!['\n'] + fmt_map_content(kvs, cl, o, ind + 1) + fmt_indent(o, ind)
            + seq!['}']
    }
}

/// A variant rendered at nesting level `ind`. A variant with no values
/// and no closing comments is just its name; a variant whose sole value
/// is a map or list is fused with it to avoid double indentation.
pub open spec fn fmt_variant(
    name: Seq<char>,
    vs: Seq<SpecTokenTree>,
    cl: Seq<Seq<char>>,
    o: SpecFormatOptions,
    ind: nat,
) -> Seq<char>
    decreases vs, 2int, 0int,
{
    if vs.len() == 0 && cl.len() == 0 {
        name
    } else if cl.len() == 0 && spec_values_on_one_line(vs) {
        name + seq!['('] + fmt_inline_values(vs, o, ind, 0) + seq![')']
    } else if cl.len() == 0 && vs.len() == 1 && vs[0].value is Object {
        match vs[0].value {
            SpecTokenValue::Object(kvs, mcl) => {
                if kvs.len() == 0 && mcl.len() == 0 {
                    name + "({ })"@
                } else {
                    name + "({"@ + seq!['\n'] + fmt_map_content(kvs, mcl, o, ind + 1)
                        + fmt_indent(o, ind) + "})"@
                }
            },
            _ => Seq::empty(),
        }
    } else if cl.len() == 0 && vs.len() == 1 && vs[0].value is List {
        match vs[0].value {
            SpecTokenValue::List(lvs, lcl) => {
                if lvs.len() == 0 && lcl.len() == 0 {
                    name + "([ ])"@
                } else {
                    name + "(["@ + seq!['\n'] + fmt_list_content(lvs, lcl, o, ind + 1)
                        + fmt_indent(o, ind) + "])"@
                }
            },
            _ => Seq::empty(),
        }
    } else {
        let blanks = spec_any_prefixed(vs);
        name + seq!['('] + seq!['\n'] + fmt_block_values(vs, o, ind + 1, blanks, 0) + (if blanks
            && cl.len() > 0 {
            seq!['\n']
        } else {
            Seq::empty()
        }) + fmt_comments(cl, o, ind + 1) + fmt_indent(o, ind) + seq![')']
    }
}

/// A bare value rendered at nesting level `ind`. Atoms echo their
/// captured slice verbatim.
pub open spec fn fmt_value(v: SpecTokenValue, o: SpecFormatOptions, ind: nat) -> Seq<char>
    decreases v, 3int, 0int,
{
    match v {
        SpecTokenValue::Identifier(s) => s,
        SpecTokenValue::Number(s) => s,
        SpecTokenValue::QuotedString(s) => s,
        SpecTokenValue::List(vs, cl) => fmt_list(vs, cl, o, ind),
        SpecTokenValue::Object(kvs, cl) => fmt_map(kvs, cl, o, ind),
        SpecTokenValue::Variant(_, name, vs, cl) => fmt_variant(name, vs, cl, o, ind),
    }
}

/// A value on its own line: prefix comments, indentation, the value, and
/// its suffix comment.
pub open spec fn fmt_tree_indented(t: SpecTokenTree, o: SpecFormatOptions, ind: nat) -> Seq<char>
    decreases t, 4int, 0int,
{
    fmt_comments(t.prefix_comments, o, ind) + fmt_indent(o, ind) + fmt_value(t.value, o, ind)
        + fmt_suffix(t.suffix_comment)
}

/// A whole document. Unless the options ask for outer braces, a
/// top-level map is rendered without its `{ }`.
pub open spec fn fmt_top(t: SpecTokenTree, o: SpecFormatOptions) -> Seq<char> {
    if !o.always_include_outer_braces && t.value is Object {
        match t.value {
            SpecTokenValue::Object(kvs, cl) => fmt_comments(t.prefix_comments, o, 0)
                + fmt_map_content(kvs, cl, o, 0) + fmt_suffix(t.suffix_comment),
            _ => Seq::empty(),
        }
    } else {
        fmt_tree_indented(t, o, 0)
    }
}

/// True when the string holds a newline.
fn contains_newline_str(s: &String) -> (r: bool)
    ensures
        r == spec_has_newline(s@),
{
    let t = s.as_str();
    let n = t.unicode_len();
    let mut i: usize = 0;
    while i < n
        invariant
            i <= n == s@.len(),
            t@ == s@,
            forall|j: int| 0 <= j < i ==> s@[j] != '\n',
        decreases n - i,
    {
        if t.get_char(i) == '\n' {
            assert(spec_has_newline(s@));
            return true;
        }
        i = i + 1;
    }
    false
}

/// True when the value is simple: no comments, and no structure that
/// needs more than one line.
fn is_simple(value: &TokenTree) -> (r: bool)
    ensures
        r == spec_is_simple(value@),
{
    if value.prefix_comments.len() != 0 {
        return false;
    }
    match &value.suffix_comment {
        Some(_) => {
            return false;
        },
        None => {},
    }
    proof {
        crate::token_tree::lemma_spec_tree_unfold(*value);
        crate::token_tree::lemma_spec_value_unfold(value.value);
    }
    match &value.value {
        TokenValue::Identifier(_) => true,
        TokenValue::Number(_) => true,
        TokenValue::QuotedString(string) => {
            let r = !contains_newline_str(string);
            proof {
                assert(value.value matches TokenValue::QuotedString(x) && x == *string);
                assert(r == spec_is_simple(value@));
            }
            r
        },
        TokenValue::List(list) => {
            let r = list.values.len() == 0 && list.closing_comments.len() == 0;
            proof {
                assert(value.value matches TokenValue::List(l) && l == *list);
                crate::token_tree::lemma_spec_trees(list.values@);
                assert(spec_strings(list.closing_comments@).len()
                    == list.closing_comments@.len());
                assert(r == spec_is_simple(value@));
            }
            r
        },
        TokenValue::Object(map) => {
            let r = map.key_values.len() == 0 && map.closing_comments.len() == 0;
            proof {
                assert(value.value matches TokenValue::Object(x) && x == *map);
                crate::token_tree::lemma_spec_key_values(map.key_values@);
                assert(spec_strings(map.closing_comments@).len()
                    == map.closing_comments@.len());
                assert(r == spec_is_simple(value@));
            }
            r
        },
        TokenValue::Variant(variant) => {
            let r = variant.values.len() == 0 && variant.closing_comments.len() == 0;
            proof {
                assert(value.value matches TokenValue::Variant(x) && x == *variant);
                crate::token_tree::lemma_spec_trees(variant.values@);
                assert(spec_strings(variant.closing_comments@).len()
                    == variant.closing_comments@.len());
                assert(r == spec_is_simple(value@));
            }
            r
        },
    }
}

/// True when the values can be rendered on a single line: all simple,
/// and either at most four numbers, or at most four values whose
/// estimated width stays under sixty characters.
fn should_format_values_on_one_line(values: &Vec<TokenTree>) -> (r: bool)
    ensures
        r == spec_values_on_one_line(spec_trees(values@)),
{
    let ghost tv = spec_trees(values@);
    proof {
        crate::token_tree::lemma_spec_trees(values@);
    }
    let n = values.len();
    let mut i: usize = 0;
    while i < n
        invariant
            i <= n == values@.len(),
            tv == spec_trees(values@),
            tv.len() == values@.len(),
            forall|j: int| 0 <= j < values@.len() ==> tv[j] == spec_tree(values@[j]),
            forall|j: int| 0 <= j < i ==> spec_is_simple(#[trigger] tv[j]),
        decreases n - i,
    {
        if !is_simple(&values[i]) {
            assert(!spec_is_simple(tv[i as int]));
            return false;
        }
        i = i + 1;
    }
    assert(spec_all_simple(tv));

    if n <= 4 {
        let mut all_numbers = true;
        let mut i: usize = 0;
        while i < n
            invariant
                i <= n == values@.len(),
                tv == spec_trees(values@),
                tv.len() == values@.len(),
                forall|j: int| 0 <= j < values@.len() ==> tv[j] == spec_tree(values@[j]),
                all_numbers == forall|j: int| 0 <= j < i ==> (#[trigger] tv[j].value) is Number,
            decreases n - i,
        {
            let is_number = match &values[i].value {
                TokenValue::Number(_) => true,
                _ => false,
            };
            if !is_number {
                assert(!(tv[i as int].value is Number));
                all_numbers = false;
            }
            i = i + 1;
        }
        if all_numbers {
            assert(spec_all_numbers(tv));
            return true;
        }
    }

    if n > 4 {
        return false;
    }

    // Estimate the rendered width: strings count their escaped length,
    // any other atom counts a stand-in width of five, and each separator
    // counts two.
    let mut estimated_width: u128 = 0;
    let mut i: usize = 0;
    proof {
        assert(tv.skip(0) =~= tv);
    }
    while i < n
        invariant
            i <= n == values@.len(),
            n <= 4,
            tv == spec_trees(values@),
            tv.len() == values@.len(),
            forall|j: int| 0 <= j < values@.len() ==> tv[j] == spec_tree(values@[j]),
            estimated_width <= (i as u128) * 0x2_0000_0000_0000_0000,
            spec_estimated_width(tv) == estimated_width + spec_estimated_width(
                tv.skip(i as int),
            ),
        decreases n - i,
    {
        let w: u128 = match &values[i].value {
            TokenValue::QuotedString(string) => string.as_str().unicode_len() as u128,
            _ => 5,
        };
        proof {
            assert(tv.skip(i as int)[0] == tv[i as int]);
            assert(tv.skip(i as int).skip(1) =~= tv.skip(i + 1));
        }
        estimated_width = estimated_width + w + 2;
        i = i + 1;
    }
    proof {
        assert(spec_estimated_width(tv.skip(n as int)) == 0);
    }
    estimated_width < 60
}

/// True when the list is rendered on one line.
fn should_format_list_on_one_line(list: &TokenList) -> (r: bool)
    ensures
        r == spec_list_on_one_line(spec_trees(list.values@), spec_strings(list.closing_comments@)),
{
    proof {
        assert(spec_strings(list.closing_comments@).len() == list.closing_comments@.len());
    }
    list.closing_comments.len() == 0 && should_format_values_on_one_line(&list.values)
}

/// True when the variant is rendered on one line.
fn should_format_variant_on_one_line(variant: &TokenVariant) -> (r: bool)
    ensures
        r == (spec_strings(variant.closing_comments@).len() == 0 && spec_values_on_one_line(
            spec_trees(variant.values@),
        )),
{
    proof {
        assert(spec_strings(variant.closing_comments@).len() == variant.closing_comments@.len());
    }
    variant.closing_comments.len() == 0 && should_format_values_on_one_line(&variant.values)
}

/// True when some element carries a prefix comment.
fn any_value_prefixed(values: &Vec<TokenTree>) -> (r: bool)
    ensures
        r == spec_any_prefixed(spec_trees(values@)),
{
    let ghost tv = spec_trees(values@);
    proof {
        crate::token_tree::lemma_spec_trees(values@);
    }
    let n = values.len();
    let mut i: usize = 0;
    while i < n
        invariant
            i <= n == values@.len(),
            tv == spec_trees(values@),
            tv.len() == values@.len(),
            forall|j: int| 0 <= j < values@.len() ==> tv[j] == spec_tree(values@[j]),
            forall|j: int| 0 <= j < i ==> (#[trigger] tv[j]).prefix_comments.len() == 0,
        decreases n - i,
    {
        if values[i].prefix_comments.len() > 0 {
            assert(tv[i as int].prefix_comments.len() > 0);
            return true;
        }
        assert(spec_strings(values@[i as int].prefix_comments@).len() == 0);
        i = i + 1;
    }
    false
}

/// The rendering state: the options, the current nesting level, and the
/// text produced so far.
struct Formatter<'o> {
    options: &'o FormatOptions,
    indent: usize,
    out: Vec<char>,
}

impl<'o> Formatter<'o> {
    /// The indent never exceeds the length of the text written, which
    /// keeps it from overflowing.
    spec fn wf(self) -> bool {
        self.indent <= self.out@.len()
    }

    fn new(options: &'o FormatOptions) -> (r: Self)
        ensures
            r.wf(),
            r.indent == 0,
            r.out@ == Seq::<char>::empty(),
            r.options == options,
    {
        Formatter { options, indent: 0, out: Vec::new() }
    }

    fn finish(self) -> (r: String)
        ensures
            r@ == self.out@,
    {
        chars_to_string(&self.out)
    }

    /// Write the indentation for the current nesting level.
    fn add_indent(&mut self)
        requires
            old(self).wf(),
        ensures
            final(self).wf(),
            final(self).options == old(self).options,
            final(self).indent == old(self).indent,
            final(self).out@ == old(self).out@ + fmt_indent(
                old(self).options@,
                old(self).indent as nat,
            ),
    {
        let n = self.indent;
        let mut i: usize = 0;
        while i < n
            invariant
                n == self.indent == old(self).indent,
                self.options == old(self).options,
                i <= n,
                self.out@ == old(self).out@ + fmt_indent(old(self).options@, i as nat),
                old(self).wf(),
                self.out@.len() >= old(self).out@.len(),
            decreases n - i,
        {
            push_str_chars(&mut self.out, self.options.indentation.as_str());
            i = i + 1;
            proof {
                assert(self.out@ =~= old(self).out@ + fmt_indent(
                    old(self).options@,
                    i as nat,
                ));
            }
        }
    }

    /// Write comments, each on its own indented line.
    fn indented_comments(&mut self, comments: &Vec<String>)
        requires
            old(self).wf(),
        ensures
            final(self).wf(),
            final(self).options == old(self).options,
            final(self).indent == old(self).indent,
            final(self).out@ == old(self).out@ + fmt_comments(
                spec_strings(comments@),
                old(self).options@,
                old(self).indent as nat,
            ),
    {
        let ghost cs = spec_strings(comments@);
        let ghost o = old(self).options@;
        let ghost ind = old(self).indent as nat;
        let n = comments.len();
        let mut i: usize = 0;
        proof {
            assert(cs.skip(0) =~= cs);
        }
        while i < n
            invariant
                self.wf(),
                n == comments@.len(),
                cs == spec_strings(comments@),
                cs.len() == n,
                i <= n,
                self.options == old(self).options,
                self.indent == old(self).indent,
                o == old(self).options@,
                ind == old(self).indent as nat,
                old(self).out@ + fmt_comments(cs, o, ind) == self.out@ + fmt_comments(
                    cs.skip(i as int),
                    o,
                    ind,
                ),
            decreases n - i,
        {
            proof {
                assert(cs.skip(i as int)[0] == cs[i as int]);
                assert(cs[i as int] == comments@[i as int]@);
                assert(cs.skip(i as int).skip(1) =~= cs.skip(i + 1));
            }
            let ghost before = self.out@;
            self.add_indent();
            push_str_chars(&mut self.out, comments[i].as_str());
            self.out.push('\n');
            proof {
                assert(self.out@ =~= before + (fmt_indent(o, ind) + cs[i as int]
                    + seq!['\n']));
                assert(before + (fmt_indent(o, ind) + cs[i as int] + seq!['\n'])
                    + fmt_comments(cs.skip(i + 1), o, ind) =~= before + fmt_comments(
                    cs.skip(i as int),
                    o,
                    ind,
                ));
            }
            i = i + 1;
        }
        proof {
            assert(fmt_comments(cs.skip(n as int), o, ind) == Seq::<char>::empty());
            assert(self.out@ + Seq::<char>::empty() =~= self.out@);
        }
    }

    /// Write a suffix comment after a single space, if there is one.
    fn suffix_comment(&mut self, suffix: &Option<String>)
        requires
            old(self).wf(),
        ensures
            final(self).wf(),
            final(self).options == old(self).options,
            final(self).indent == old(self).indent,
            final(self).out@ == old(self).out@ + fmt_suffix(spec_opt_string(*suffix)),
    {
        match suffix {
            Some(c) => {
                self.out.push(' ');
                push_str_chars(&mut self.out, c.as_str());
                proof {
                    assert(self.out@ =~= old(self).out@ + fmt_suffix(
                        spec_opt_string(*suffix),
                    ));
                }
            },
            None => {
                proof {
                    assert(old(self).out@ + fmt_suffix(spec_opt_string(*suffix))
                        =~= old(self).out@);
                }
            },
        }
    }

    /// Write a bare value at the current nesting level.
    fn value(&mut self, v: &TokenValue)
        requires
            old(self).wf(),
        ensures
            final(self).wf(),
            final(self).options == old(self).options,
            final(self).indent == old(self).indent,
            final(self).out@ == old(self).out@ + fmt_value(
                spec_value(*v),
                old(self).options@,
                old(self).indent as nat,
            ),
        decreases *v, 3int,
    {
        proof {
            crate::token_tree::lemma_spec_value_unfold(*v);
        }
        match v {
            TokenValue::Identifier(slice) => {
                push_str_chars(&mut self.out, slice.as_str());
            },
            TokenValue::Number(slice) => {
                push_str_chars(&mut self.out, slice.as_str());
            },
            TokenValue::QuotedString(slice) => {
                push_str_chars(&mut self.out, slice.as_str());
            },
            TokenValue::List(list) => {
                self.list(list);
            },
            TokenValue::Object(map) => {
                self.map(map);
            },
            TokenValue::Variant(variant) => {
                self.variant(variant);
            },
        }
    }

    /// Write a list at the current nesting level.
    #[verifier::rlimit(60)]
    fn list(&mut self, list: &TokenList)
        requires
            old(self).wf(),
        ensures
            final(self).wf(),
            final(self).options == old(self).options,
            final(self).indent == old(self).indent,
            final(self).out@ == old(self).out@ + fmt_list(
                spec_trees(list.values@),
                spec_strings(list.closing_comments@),
                old(self).options@,
                old(self).indent as nat,
            ),
        decreases *list, 2int,
    {
        let ghost vs = spec_trees(list.values@);
        let ghost cl = spec_strings(list.closing_comments@);
        let ghost o = old(self).options@;
        let ghost ind = old(self).indent as nat;
        proof {
            crate::token_tree::lemma_spec_trees(list.values@);
        }
        if list.values.len() == 0 && list.closing_comments.len() == 0 {
            push_str_chars(&mut self.out, "[]");
            proof {
                assert(self.out@ =~= old(self).out@ + fmt_list(vs, cl, o, ind));
            }
            return ;
        }
        if should_format_list_on_one_line(list) {
            self.out.push('[');
            self.inline_values(&list.values);
            self.out.push(']');
            proof {
                assert(self.out@ =~= old(self).out@ + (seq!['['] + fmt_inline_values(
                    vs,
                    o,
                    ind,
                    0,
                ) + seq![']']));
            }
        } else {
            self.out.push('[');
            let grown = self.out.len();
            proof {
                assert(self.indent < grown);
            }
            self.indent = self.indent + 1;
            self.out.push('\n');
            self.list_content(list);
            self.indent = self.indent - 1;
            self.add_indent();
            self.out.push(']');
            proof {
                assert(self.out@ =~= old(self).out@ + (seq!['['] + seq!['\n']
                    + fmt_list_content(vs, cl, o, ind + 1) + fmt_indent(o, ind) + seq![']']));
            }
        }
    }

    /// Write the values of a one-line list or variant, comma separated.
    fn inline_values(&mut self, values: &Vec<TokenTree>)
        requires
            old(self).wf(),
        ensures
            final(self).wf(),
            final(self).options == old(self).options,
            final(self).indent == old(self).indent,
            final(self).out@ == old(self).out@ + fmt_inline_values(
                spec_trees(values@),
                old(self).options@,
                old(self).indent as nat,
                0,
            ),
        decreases values@, 1int,
    {
        let ghost vs = spec_trees(values@);
        let ghost o = old(self).options@;
        let ghost ind = old(self).indent as nat;
        proof {
            crate::token_tree::lemma_spec_trees(values@);
        }
        let n = values.len();
        let mut i: usize = 0;
        while i < n
            invariant
                self.wf(),
                n == values@.len(),
                vs == spec_trees(values@),
                vs.len() == n,
                forall|j: int| 0 <= j < n ==> vs[j] == spec_tree(values@[j]),
                i <= n,
                self.options == old(self).options,
                self.indent == old(self).indent,
                o == old(self).options@,
                ind == old(self).indent as nat,
                old(self).out@ + fmt_inline_values(vs, o, ind, 0) == self.out@
                    + fmt_inline_values(vs, o, ind, i as int),
            decreases n - i,
        {
            let ghost before = self.out@;
            self.value(&values[i].value);
            if i + 1 < n {
                // Commas in single-line lists, just for extra readability.
                push_str_chars(&mut self.out, ", ");
                proof {
                    assert(self.out@ =~= before + (fmt_value(vs[i as int].value, o, ind)
                        + ", "@));
                    assert(before + (fmt_value(vs[i as int].value, o, ind) + ", "@)
                        + fmt_inline_values(vs, o, ind, i + 1) =~= before + fmt_inline_values(
                        vs,
                        o,
                        ind,
                        i as int,
                    ));
                }
            } else {
                proof {
                    assert(self.out@ =~= before + (fmt_value(vs[i as int].value, o, ind)
                        + Seq::<char>::empty()));
                    assert(before + (fmt_value(vs[i as int].value, o, ind)
                        + Seq::<char>::empty()) + fmt_inline_values(vs, o, ind, i + 1)
                        =~= before + fmt_inline_values(vs, o, ind, i as int));
                }
            }
            i = i + 1;
        }
        proof {
            assert(fmt_inline_values(vs, o, ind, n as int) == Seq::<char>::empty());
            assert(self.out@ + Seq::<char>::empty() =~= self.out@);
        }
    }

    /// Write the elements of a multi-line list or variant body, each on
    /// its own line, with blank lines between them when `blanks` is set.
    fn block_values(&mut self, values: &Vec<TokenTree>, blanks: bool)
        requires
            old(self).wf(),
        ensures
            final(self).wf(),
            final(self).options == old(self).options,
            final(self).indent == old(self).indent,
            final(self).out@ == old(self).out@ + fmt_block_values(
                spec_trees(values@),
                old(self).options@,
                old(self).indent as nat,
                blanks,
                0,
            ),
        decreases values@, 1int,
    {
        let ghost vs = spec_trees(values@);
        let ghost o = old(self).options@;
        let ghost ind = old(self).indent as nat;
        proof {
            crate::token_tree::lemma_spec_trees(values@);
        }
        let n = values.len();
        let mut i: usize = 0;
        while i < n
            invariant
                self.wf(),
                n == values@.len(),
                vs == spec_trees(values@),
                vs.len() == n,
                forall|j: int| 0 <= j < n ==> vs[j] == spec_tree(values@[j]),
                i <= n,
                self.options == old(self).options,
                self.indent == old(self).indent,
                o == old(self).options@,
                ind == old(self).indent as nat,
                old(self).out@ + fmt_block_values(vs, o, ind, blanks, 0) == self.out@
                    + fmt_block_values(vs, o, ind, blanks, i as int),
            decreases n - i,
        {
            let ghost before = self.out@;
            self.indented_value(&values[i]);
            self.out.push('\n');
            if blanks && i + 1 < n {
                self.out.push('\n');
                proof {
                    assert(self.out@ =~= before + (fmt_tree_indented(vs[i as int], o, ind)
                        + seq!['\n'] + seq!['\n']));
                    assert(before + (fmt_tree_indented(vs[i as int], o, ind) + seq!['\n']
                        + seq!['\n']) + fmt_block_values(vs, o, ind, blanks, i + 1) =~= before
                        + fmt_block_values(vs, o, ind, blanks, i as int));
                }
            } else {
                proof {
                    assert(self.out@ =~= before + (fmt_tree_indented(vs[i as int], o, ind)
                        + seq!['\n'] + Seq::<char>::empty()));
                    assert(before + (fmt_tree_indented(vs[i as int], o, ind) + seq!['\n']
                        + Seq::<char>::empty()) + fmt_block_values(vs, o, ind, blanks, i + 1)
                        =~= before + fmt_block_values(vs, o, ind, blanks, i as int));
                }
            }
            i = i + 1;
        }
        proof {
            assert(fmt_block_values(vs, o, ind, blanks, n as int) == Seq::<char>::empty());
            assert(self.out@ + Seq::<char>::empty() =~= self.out@);
        }
    }

    /// Write the body of a multi-line list: elements, then closing
    /// comments.
    #[verifier::rlimit(60)]
    fn list_content(&mut self, list: &TokenList)
        requires
            old(self).wf(),
        ensures
            final(self).wf(),
            final(self).options == old(self).options,
            final(self).indent == old(self).indent,
            final(self).out@ == old(self).out@ + fmt_list_content(
                spec_trees(list.values@),
                spec_strings(list.closing_comments@),
                old(self).options@,
                old(self).indent as nat,
            ),
        decreases *list, 1int,
    {
        let ghost vs = spec_trees(list.values@);
        let ghost cl = spec_strings(list.closing_comments@);
        let ghost o = old(self).options@;
        let ghost ind = old(self).indent as nat;
        let add_blank_lines = any_value_prefixed(&list.values);
        let ghost before = self.out@;
        self.block_values(&list.values, add_blank_lines);
        if add_blank_lines && list.closing_comments.len() > 0 {
            proof {
                assert(cl.len() > 0);
            }
            self.out.push('\n');
            proof {
                assert(self.out@ =~= before + (fmt_block_values(vs, o, ind, spec_any_prefixed(
                    vs,
                ), 0) + seq!['\n']));
            }
        } else {
            proof {
                assert(cl.len() == list.closing_comments@.len());
                assert(self.out@ + Seq::<char>::empty() =~= self.out@);
            }
        }
        let ghost mid = self.out@;
        self.indented_comments(&list.closing_comments);
        proof {
            assert(self.out@ =~= before + fmt_list_content(vs, cl, o, ind));
        }
    }

    /// Write a map at the current nesting level.
    #[verifier::rlimit(60)]
    fn map(&mut self, map: &TokenMap)
        requires
            old(self).wf(),
        ensures
            final(self).wf(),
            final(self).options == old(self).options,
            final(self).indent == old(self).indent,
            final(self).out@ == old(self).out@ + fmt_map(
                spec_key_values(map.key_values@),
                spec_strings(map.closing_comments@),
                old(self).options@,
                old(self).indent as nat,
            ),
        decreases *map, 2int,
    {
        let ghost kvs = spec_key_values(map.key_values@);
        let ghost cl = spec_strings(map.closing_comments@);
        let ghost o = old(self).options@;
        let ghost ind = old(self).indent as nat;
        proof {
            crate::token_tree::lemma_spec_key_values(map.key_values@);
        }
        if map.key_values.len() == 0 && map.closing_comments.len() == 0 {
            push_str_chars(&mut self.out, "{}");
            proof {
                assert(self.out@ =~= old(self).out@ + fmt_map(kvs, cl, o, ind));
            }
            return ;
        }
        self.out.push('{');
        let grown = self.out.len();
        proof {
            assert(self.indent < grown);
        }
        self.indent = self.indent + 1;
        self.out.push('\n');
        self.map_content(map);
        self.indent = self.indent - 1;
        self.add_indent();
        self.out.push('}');
        proof {
            assert(self.out@ =~= old(self).out@ + (seq!['{'] + seq!['\n'] + fmt_map_content(
                kvs,
                cl,
                o,
                ind + 1,
            ) + fmt_indent(o, ind) + seq!['}']));
        }
    }

    /// Write the body of a map: entries, then closing comments.
    #[verifier::rlimit(60)]
    fn map_content(&mut self, map: &TokenMap)
        requires
            old(self).wf(),
        ensures
            final(self).wf(),
            final(self).options == old(self).options,
            final(self).indent == old(self).indent,
            final(self).out@ == old(self).out@ + fmt_map_content(
                spec_key_values(map.key_values@),
                spec_strings(map.closing_comments@),
                old(self).options@,
                old(self).indent as nat,
            ),
        decreases *map, 1int,
    {
        let ghost kvs = spec_key_values(map.key_values@);
        let ghost cl = spec_strings(map.closing_comments@);
        let ghost o = old(self).options@;
        let ghost ind = old(self).indent as nat;
        proof {
            crate::token_tree::lemma_spec_key_values(map.key_values@);
        }
        let add_blank_lines = any_key_prefixed(&map.key_values);
        let ghost before = self.out@;

        let n = map.key_values.len();
        let mut i: usize = 0;
        while i < n
            invariant
                self.wf(),
                n == map.key_values@.len(),
                kvs == spec_key_values(map.key_values@),
                kvs.len() == n,
                forall|j: int|
                    0 <= j < n ==> kvs[j] == (SpecTokenKeyValue {
                        key: spec_tree(map.key_values@[j].key),
                        value: spec_tree(map.key_values@[j].value),
                    }),
                i <= n,
                self.options == old(self).options,
                self.indent == old(self).indent,
                o == old(self).options@,
                ind == old(self).indent as nat,
                add_blank_lines == spec_any_key_prefixed(kvs),
                before == old(self).out@,
                before + fmt_block_entries(kvs, o, ind, add_blank_lines, 0) == self.out@
                    + fmt_block_entries(kvs, o, ind, add_blank_lines, i as int),
            decreases n - i,
        {
            let ghost at = self.out@;
            self.indented_key_value(&map.key_values[i]);
            self.out.push('\n');
            if add_blank_lines && i + 1 < n {
                self.out.push('\n');
                proof {
                    assert(self.out@ =~= at + (fmt_key_value(kvs[i as int], o, ind)
                        + seq!['\n'] + seq!['\n']));
                    assert(at + (fmt_key_value(kvs[i as int], o, ind) + seq!['\n']
                        + seq!['\n']) + fmt_block_entries(kvs, o, ind, add_blank_lines, i + 1)
                        =~= at + fmt_block_entries(kvs, o, ind, add_blank_lines, i as int));
                }
            } else {
                proof {
                    assert(self.out@ =~= at + (fmt_key_value(kvs[i as int], o, ind)
                        + seq!['\n'] + Seq::<char>::empty()));
                    assert(at + (fmt_key_value(kvs[i as int], o, ind) + seq!['\n']
                        + Seq::<char>::empty()) + fmt_block_entries(
                        kvs,
                        o,
                        ind,
                        add_blank_lines,
                        i + 1,
                    ) =~= at + fmt_block_entries(kvs, o, ind, add_blank_lines, i as int));
                }
            }
            i = i + 1;
        }
        proof {
            assert(fmt_block_entries(kvs, o, ind, add_blank_lines, n as int) == Seq::<
                char,
            >::empty());
            assert(self.out@ + Seq::<char>::empty() =~= self.out@);
        }

        if add_blank_lines && map.closing_comments.len() > 0 {
            proof {
                assert(cl.len() > 0);
            }
            self.out.push('\n');
        } else {
            proof {
                assert(cl.len() == map.closing_comments@.len());
            }
        }
        self.indented_comments(&map.closing_comments);
        proof {
            assert(self.out@ =~= before + fmt_map_content(kvs, cl, o, ind));
        }
    }

    /// Write one `key: value` entry on its own indented line.
    fn indented_key_value(&mut self, key_value: &TokenKeyValue)
        requires
            old(self).wf(),
        ensures
            final(self).wf(),
            final(self).options == old(self).options,
            final(self).indent == old(self).indent,
            final(self).out@ == old(self).out@ + fmt_key_value(
                SpecTokenKeyValue {
                    key: spec_tree(key_value.key),
                    value: spec_tree(key_value.value),
                },
                old(self).options@,
                old(self).indent as nat,
            ),
        decreases *key_value, 2int,
    {
        proof {
            crate::token_tree::lemma_spec_tree_unfold(key_value.key);
            crate::token_tree::lemma_spec_tree_unfold(key_value.value);
        }
        self.indented_comments(&key_value.key.prefix_comments);
        self.indented_comments(&key_value.value.prefix_comments);
        self.add_indent();
        self.value(&key_value.key.value);
        push_str_chars(&mut self.out, self.options.key_value_separator.as_str());
        self.value(&key_value.value.value);
        self.suffix_comment(&key_value.value.suffix_comment);
        proof {
            assert(self.out@ =~= old(self).out@ + fmt_key_value(
                SpecTokenKeyValue {
                    key: spec_tree(key_value.key),
                    value: spec_tree(key_value.value),
                },
                old(self).options@,
                old(self).indent as nat,
            ));
        }
    }

    /// Write a variant whose sole value is a map, fusing the braces onto
    /// the parentheses.
    fn variant_single_map(&mut self, quoted_name: &String, map: &TokenMap)
        requires
            old(self).wf(),
        ensures
            final(self).wf(),
            final(self).options == old(self).options,
            final(self).indent == old(self).indent,
            final(self).out@ == old(self).out@ + (if spec_key_values(map.key_values@).len() == 0
                && spec_strings(map.closing_comments@).len() == 0 {
                quoted_name@ + "({ })"@
            } else {
                quoted_name@ + "({"@ + seq!['\n'] + fmt_map_content(
                    spec_key_values(map.key_values@),
                    spec_strings(map.closing_comments@),
                    old(self).options@,
                    (old(self).indent + 1) as nat,
                ) + fmt_indent(old(self).options@, old(self).indent as nat) + "})"@
            }),
        decreases *map, 3int,
    {
        let ghost o = old(self).options@;
        let ghost ind = old(self).indent as nat;
        proof {
            crate::token_tree::lemma_spec_key_values(map.key_values@);
        }
        if map.key_values.len() == 0 && map.closing_comments.len() == 0 {
            push_str_chars(&mut self.out, quoted_name.as_str());
            push_str_chars(&mut self.out, "({ })");
            proof {
                assert(self.out@ =~= old(self).out@ + (quoted_name@ + "({ })"@));
            }
        } else {
            // A single map variant: avoid double indentation for more
            // compact output.
            push_str_chars(&mut self.out, quoted_name.as_str());
            push_str_chars(&mut self.out, "({");
            let grown = self.out.len();
            proof {
                reveal_strlit("({");
                assert(self.indent < grown);
            }
            self.indent = self.indent + 1;
            self.out.push('\n');
            self.map_content(map);
            self.indent = self.indent - 1;
            self.add_indent();
            push_str_chars(&mut self.out, "})");
            proof {
                assert(self.out@ =~= old(self).out@ + (quoted_name@ + "({"@ + seq!['\n']
                    + fmt_map_content(
                    spec_key_values(map.key_values@),
                    spec_strings(map.closing_comments@),
                    o,
                    ind + 1,
                ) + fmt_indent(o, ind) + "})"@));
            }
        }
    }

    /// Write a variant whose sole value is a list, fusing the brackets
    /// onto the parentheses.
    fn variant_single_list(&mut self, quoted_name: &String, list: &TokenList)
        requires
            old(self).wf(),
        ensures
            final(self).wf(),
            final(self).options == old(self).options,
            final(self).indent == old(self).indent,
            final(self).out@ == old(self).out@ + (if spec_trees(list.values@).len() == 0
                && spec_strings(list.closing_comments@).len() == 0 {
                quoted_name@ + "([ ])"@
            } else {
                quoted_name@ + "(["@ + seq!['\n'] + fmt_list_content(
                    spec_trees(list.values@),
                    spec_strings(list.closing_comments@),
                    old(self).options@,
                    (old(self).indent + 1) as nat,
                ) + fmt_indent(old(self).options@, old(self).indent as nat) + "])"@
            }),
        decreases *list, 3int,
    {
        let ghost o = old(self).options@;
        let ghost ind = old(self).indent as nat;
        proof {
            crate::token_tree::lemma_spec_trees(list.values@);
        }
        if list.values.len() == 0 && list.closing_comments.len() == 0 {
            push_str_chars(&mut self.out, quoted_name.as_str());
            push_str_chars(&mut self.out, "([ ])");
            proof {
                assert(self.out@ =~= old(self).out@ + (quoted_name@ + "([ ])"@));
            }
        } else {
            // A single list variant: avoid double indentation for more
            // compact output.
            push_str_chars(&mut self.out, quoted_name.as_str());
            push_str_chars(&mut self.out, "([");
            let grown = self.out.len();
            proof {
                reveal_strlit("([");
                assert(self.indent < grown);
            }
            self.indent = self.indent + 1;
            self.out.push('\n');
            self.list_content(list);
            self.indent = self.indent - 1;
            self.add_indent();
            push_str_chars(&mut self.out, "])");
            proof {
                assert(self.out@ =~= old(self).out@ + (quoted_name@ + "(["@ + seq!['\n']
                    + fmt_list_content(
                    spec_trees(list.values@),
                    spec_strings(list.closing_comments@),
                    o,
                    ind + 1,
                ) + fmt_indent(o, ind) + "])"@));
            }
        }
    }

    /// Write a variant at the current nesting level.
    #[verifier::rlimit(60)]
    fn variant(&mut self, variant: &TokenVariant)
        requires
            old(self).wf(),
        ensures
            final(self).wf(),
            final(self).options == old(self).options,
            final(self).indent == old(self).indent,
            final(self).out@ == old(self).out@ + fmt_variant(
                variant.quoted_name@,
                spec_trees(variant.values@),
                spec_strings(variant.closing_comments@),
                old(self).options@,
                old(self).indent as nat,
            ),
        decreases *variant, 2int,
    {
        let ghost name = variant.quoted_name@;
        let ghost vs = spec_trees(variant.values@);
        let ghost cl = spec_strings(variant.closing_comments@);
        let ghost o = old(self).options@;
        let ghost ind = old(self).indent as nat;
        proof {
            crate::token_tree::lemma_spec_trees(variant.values@);
        }
        if variant.values.len() == 0 && variant.closing_comments.len() == 0 {
            // Omit the parentheses if there are no values.
            push_str_chars(&mut self.out, variant.quoted_name.as_str());
            proof {
                assert(self.out@ =~= old(self).out@ + fmt_variant(name, vs, cl, o, ind));
            }
            return ;
        }
        if should_format_variant_on_one_line(variant) {
            push_str_chars(&mut self.out, variant.quoted_name.as_str());
            self.out.push('(');
            self.inline_values(&variant.values);
            self.out.push(')');
            proof {
                assert(self.out@ =~= old(self).out@ + (name + seq!['('] + fmt_inline_values(
                    vs,
                    o,
                    ind,
                    0,
                ) + seq![')']));
            }
            return ;
        }
        if variant.closing_comments.len() == 0 && variant.values.len() == 1 {
            let single_map = match &variant.values[0].value {
                TokenValue::Object(_) => true,
                _ => false,
            };
            if single_map {
                proof {
                    crate::token_tree::lemma_spec_tree_unfold(variant.values@[0]);
                    crate::token_tree::lemma_spec_value_unfold(variant.values@[0].value);
                }
                match &variant.values[0].value {
                    TokenValue::Object(map) => {
                        proof {
                            assert(variant.values@[0].value matches TokenValue::Object(x) && x
                                == *map);
                        }
                        self.variant_single_map(&variant.quoted_name, map);
                        proof {
                            assert(self.out@ == old(self).out@ + fmt_variant(name, vs, cl, o,
                            ind));
                        }
                        return ;
                    },
                    _ => {
                        proof {
                            assert(false);
                        }
                        return ;
                    },
                }
            }
            let single_list = match &variant.values[0].value {
                TokenValue::List(_) => true,
                _ => false,
            };
            if single_list {
                proof {
                    crate::token_tree::lemma_spec_tree_unfold(variant.values@[0]);
                    crate::token_tree::lemma_spec_value_unfold(variant.values@[0].value);
                }
                match &variant.values[0].value {
                    TokenValue::List(list) => {
                        proof {
                            assert(variant.values@[0].value matches TokenValue::List(x) && x
                                == *list);
                        }
                        self.variant_single_list(&variant.quoted_name, list);
                        proof {
                            assert(self.out@ == old(self).out@ + fmt_variant(name, vs, cl, o,
                            ind));
                        }
                        return ;
                    },
                    _ => {
                        proof {
                            assert(false);
                        }
                        return ;
                    },
                }
            }
        }
        let add_blank_lines = any_value_prefixed(&variant.values);
        push_str_chars(&mut self.out, variant.quoted_name.as_str());
        self.out.push('(');
        let grown = self.out.len();
        proof {
            assert(self.indent < grown);
        }
        self.indent = self.indent + 1;
        self.out.push('\n');
        self.block_values(&variant.values, add_blank_lines);
        if add_blank_lines && variant.closing_comments.len() > 0 {
            proof {
                assert(cl.len() > 0);
            }
            self.out.push('\n');
        } else {
            proof {
                assert(cl.len() == variant.closing_comments@.len());
            }
        }
        self.indented_comments(&variant.closing_comments);
        self.indent = self.indent - 1;
        self.add_indent();
        self.out.push(')');
        proof {
            assert(self.out@ =~= old(self).out@ + (name + seq!['('] + seq!['\n']
                + fmt_block_values(vs, o, ind + 1, spec_any_prefixed(vs), 0) + (if spec_any_prefixed(
                vs,
            ) && cl.len() > 0 {
                seq!['\n']
            } else {
                Seq::<char>::empty()
            }) + fmt_comments(cl, o, ind + 1) + fmt_indent(o, ind) + seq![')']));
        }
    }

    /// Write a value on its own line: prefix comments, indentation, the
    /// value, and its suffix comment.
    fn indented_value(&mut self, tree: &TokenTree)
        requires
            old(self).wf(),
        ensures
            final(self).wf(),
            final(self).options == old(self).options,
            final(self).indent == old(self).indent,
            final(self).out@ == old(self).out@ + fmt_tree_indented(
                spec_tree(*tree),
                old(self).options@,
                old(self).indent as nat,
            ),
        decreases *tree, 4int,
    {
        proof {
            crate::token_tree::lemma_spec_tree_unfold(*tree);
        }
        self.indented_comments(&tree.prefix_comments);
        self.add_indent();
        self.value(&tree.value);
        self.suffix_comment(&tree.suffix_comment);
        proof {
            assert(self.out@ =~= old(self).out@ + fmt_tree_indented(
                spec_tree(*tree),
                old(self).options@,
                old(self).indent as nat,
            ));
        }
    }
}

impl TokenTree {
    /// Render the tree to text with the given options.
    ///
    /// This cannot fail: atoms echo their captured slice verbatim, and
    /// the layout rules decide line breaks, indentation and blank lines.
    pub fn format(&self, options: &FormatOptions) -> (r: String)
        ensures
            r@ == fmt_top(self@, options@),
    {
        let mut f = Formatter::new(options);
        proof {
            crate::token_tree::lemma_spec_tree_unfold(*self);
            crate::token_tree::lemma_spec_value_unfold(self.value);
        }
        if !options.always_include_outer_braces {
            match &self.value {
                TokenValue::Object(map) => {
                    proof {
                        assert(self.value matches TokenValue::Object(x) && x == *map);
                    }
                    f.indented_comments(&self.prefix_comments);
                    f.map_content(map);
                    f.suffix_comment(&self.suffix_comment);
                    proof {
                        assert(f.out@ =~= fmt_top(self@, options@));
                    }
                    return f.finish();
                },
                _ => {},
            }
        }
        f.indented_value(self);
        proof {
            assert(f.out@ =~= fmt_top(self@, options@));
        }
        f.finish()
    }
}

/// True when some entry's key carries a prefix comment.
fn any_key_prefixed(key_values: &Vec<TokenKeyValue>) -> (r: bool)
    ensures
        r == spec_any_key_prefixed(spec_key_values(key_values@)),
{
    let ghost kv = spec_key_values(key_values@);
    proof {
        crate::token_tree::lemma_spec_key_values(key_values@);
    }
    let n = key_values.len();
    let mut i: usize = 0;
    while i < n
        invariant
            i <= n == key_values@.len(),
            kv == spec_key_values(key_values@),
            kv.len() == key_values@.len(),
            forall|j: int|
                0 <= j < key_values@.len() ==> kv[j] == (SpecTokenKeyValue {
                    key: spec_tree(key_values@[j].key),
                    value: spec_tree(key_values@[j].value),
                }),
            forall|j: int| 0 <= j < i ==> (#[trigger] kv[j]).key.prefix_comments.len() == 0,
        decreases n - i,
    {
        if key_values[i].key.prefix_comments.len() > 0 {
            assert(kv[i as int].key.prefix_comments.len() > 0);
            return true;
        }
        assert(spec_strings(key_values@[i as int].key.prefix_comments@).len() == 0);
        i = i + 1;
    }
    false
}

} // verus!
