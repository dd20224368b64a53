//! A conservative TypeScript-to-JavaScript lowering pass.
//!
//! Not a complete TypeScript compiler: it drops interface declarations and
//! type aliases, `value as Type` assertions, type annotations after `:` and
//! access modifiers. Other syntax is left as written so that the script
//! engine reports ordinary syntax errors.

use vstd::prelude::*;
use crate::text::{
    char_alphanumeric, count_char, count_chars, contains_char, has_char, is_alphanumeric,
    is_ascii_alphanumeric, is_whitespace, is_whitespace_spec, lines, lines_spec, matches_at,
    push_chars, replace_spec, replace_str, sat_add, sat_sub, starts_with, starts_with_str,
    string_from_chars, trim_start, trim_start_spec, chars_of, views, find_from,
    seq_contains,
};

verus! {

pub open spec fn is_quote(c: char) -> bool {
    c == '"' || c == '\'' || c == '`'
}

/// Index just past the string literal whose body starts at `j` and which is
/// closed by `q`; a backslash skips the character after it. Unterminated
/// literals end at the end of the line, or one past it when the line ends in
/// an escaping backslash.
pub open spec fn string_end(c: Seq<char>, q: char, j: int) -> int
    decreases c.len() - j,
{
    if j < 0 || j >= c.len() {
        j
    } else if c[j] == '\\' {
        if j + 2 > c.len() {
            j + 2
        } else {
            string_end(c, q, j + 2)
        }
    } else if c[j] == q {
        j + 1
    } else {
        string_end(c, q, j + 1)
    }
}

pub proof fn lemma_string_end_bounds(c: Seq<char>, q: char, j: int)
    requires
        0 <= j <= c.len(),
    ensures
        j <= string_end(c, q, j) <= c.len() + 1,
    decreases c.len() - j,
{
    if j < c.len() {
        if c[j] == '\\' {
            if j + 2 <= c.len() {
                lemma_string_end_bounds(c, q, j + 2);
            }
        } else if c[j] != q {
            lemma_string_end_bounds(c, q, j + 1);
        }
    }
}

/// Characters that may follow ` as ` in a type assertion.
pub open spec fn is_assertion_type_char(x: char) -> bool {
    is_ascii_alphanumeric(x) || x == '_' || x == '.' || x == '$' || x == '<' || x == '>' || x == '['
        || x == ']' || x == '|' || x == ' ' || x == '&'
}

pub open spec fn assertion_type_end(c: Seq<char>, j: int) -> int
    decreases c.len() - j,
{
    if 0 <= j < c.len() && is_assertion_type_char(c[j]) {
        assertion_type_end(c, j + 1)
    } else {
        j
    }
}

pub proof fn lemma_assertion_type_end_bounds(c: Seq<char>, j: int)
    requires
        0 <= j,
    ensures
        j <= assertion_type_end(c, j),
        j <= c.len() ==> assertion_type_end(c, j) <= c.len(),
    decreases c.len() - j,
{
    if 0 <= j < c.len() && is_assertion_type_char(c[j]) {
        lemma_assertion_type_end_bounds(c, j + 1);
    }
}

pub open spec fn as_marker() -> Seq<char> {
    seq![' ', 'a', 's', ' ']
}

/// The line from `i` on with ` as Type` assertions outside string literals
/// removed; string literals are copied whole, and one that ends in an
/// escaping backslash runs to the end of the line.
pub open spec fn assertions_from(c: Seq<char>, i: int) -> Seq<char>
    decreases c.len() - i,
{
    if i < 0 || i >= c.len() {
        Seq::empty()
    } else if is_quote(c[i]) {
        let e = string_end(c, c[i], i + 1);
        if e <= i || e > c.len() {
            c.skip(i)
        } else {
            c.subrange(i, e) + assertions_from(c, e)
        }
    } else if matches_at(c, as_marker(), i) {
        let e = assertion_type_end(c, i + 4);
        if e <= i || e > c.len() {
            c.skip(i)
        } else {
            assertions_from(c, e)
        }
    } else {
        seq![c[i]] + assertions_from(c, i + 1)
    }
}

/// Remove `value as Type` assertions outside string literals: `as` and the
/// type-like run after it go, string literals are copied whole.
pub fn strip_typescript_assertions(line: &[char]) -> (r: Vec<char>)
    ensures
        r@ == assertions_from(line@, 0),
{
    let n = line.len();
    let mut out: Vec<char> = Vec::new();
    let mut i: usize = 0;
    let marker: Vec<char> = vec![' ', 'a', 's', ' '];
    assert(marker@ =~= as_marker());
    while i < n
        invariant
            n == line@.len(),
            i <= n,
            marker@ == as_marker(),
            assertions_from(line@, 0) == out@ + assertions_from(line@, i as int),
        decreases n - i,
    {
        let c = line[i];
        if c == '"' || c == '\'' || c == '`' {
            let start = i;
            let mut j: usize = i + 1;
            let mut closed = false;
            proof {
                lemma_string_end_bounds(line@, c, i + 1);
            }
            while j < n && !closed
                invariant
                    n == line@.len(),
                    start < j <= n,
                    start == i,
                    i < n,
                    c == line@[start as int],
                    is_quote(c),
                    assertions_from(line@, 0) == out@ + assertions_from(line@, i as int),
                    !closed ==> string_end(line@, c, start + 1) == string_end(line@, c, j as int),
                    closed ==> string_end(line@, c, start + 1) == j,
                    closed ==> j <= n,
                decreases n + 2 - j,
            {
                if line[j] == '\\' {
                    if n - j == 1 {
                        assert(string_end(line@, c, j as int) == n + 1);
                        let ghost old_out = out@;
                        push_chars(&mut out, vstd::slice::slice_subrange(line, start, n));
                        assert(out@ =~= old_out + line@.skip(start as int));
                        assert(assertions_from(line@, 0) =~= out@);
                        return out;
                    }
                    j = j + 2;
                } else if line[j] == c {
                    j = j + 1;
                    closed = true;
                } else {
                    j = j + 1;
                }
            }
            let ghost old_out = out@;
            push_chars(&mut out, vstd::slice::slice_subrange(line, start, j));
            assert(out@ =~= old_out + line@.subrange(start as int, j as int));
            assert(old_out + (line@.subrange(start as int, j as int) + assertions_from(line@, j as int))
                =~= out@ + assertions_from(line@, j as int));
            i = j;
        } else if n - i >= 4 && line[i] == ' ' && line[i + 1] == 'a' && line[i + 2] == 's' && line[i
            + 3] == ' ' {
            assert(matches_at(line@, as_marker(), i as int));
            let mut j: usize = i + 4;
            proof {
                lemma_assertion_type_end_bounds(line@, i + 4);
            }
            while j < n && (is_ascii_alnum(line[j]) || line[j] == '_' || line[j] == '.' || line[j]
                == '$' || line[j] == '<' || line[j] == '>' || line[j] == '[' || line[j] == ']'
                || line[j] == '|' || line[j] == ' ' || line[j] == '&')
                invariant
                    n == line@.len(),
                    i + 4 <= j <= n,
                    assertion_type_end(line@, i + 4) == assertion_type_end(line@, j as int),
                decreases n - j,
            {
                j = j + 1;
            }
            i = j;
        } else {
            assert(!matches_at(line@, as_marker(), i as int));
            let ghost old_out = out@;
            out.push(c);
            assert(out@ =~= old_out + seq![c]);
            assert(old_out + (seq![c] + assertions_from(line@, i + 1)) =~= out@ + assertions_from(
                line@,
                i + 1,
            ));
            i = i + 1;
        }
    }
    assert(out@ + Seq::<char>::empty() =~= out@);
    out
}

pub fn is_ascii_alnum(c: char) -> (r: bool)
    ensures
        r == is_ascii_alphanumeric(c),
{
    ('A' <= c && c <= 'Z') || ('a' <= c && c <= 'z') || ('0' <= c && c <= '9')
}

/// Characters that make up a type annotation after `:`.
pub open spec fn is_annotation_char(x: char) -> bool {
    char_alphanumeric(x) || x == '_' || x == '.' || x == '$' || x == '[' || x == ']' || x == '<'
        || x == '>' || x == '|' || x == ' ' || x == '&'
}

/// Characters that may follow a removable annotation.
pub open spec fn is_annotation_terminator(x: char) -> bool {
    x == ',' || x == ')' || x == '=' || x == '{' || x == ';'
}

pub open spec fn whitespace_end(c: Seq<char>, j: int) -> int
    decreases c.len() - j,
{
    if 0 <= j < c.len() && is_whitespace_spec(c[j]) {
        whitespace_end(c, j + 1)
    } else {
        j
    }
}

pub open spec fn annotation_end(c: Seq<char>, j: int) -> int
    decreases c.len() - j,
{
    if 0 <= j < c.len() && is_annotation_char(c[j]) {
        annotation_end(c, j + 1)
    } else {
        j
    }
}

/// The end of `c[s..e]` once trailing spaces are excluded.
pub open spec fn without_trailing_spaces(c: Seq<char>, s: int, e: int) -> int
    decreases e - s,
{
    if e > s && c[e - 1] == ' ' {
        without_trailing_spaces(c, s, e - 1)
    } else {
        e
    }
}

proof fn lemma_scan_ends(c: Seq<char>, j: int)
    requires
        0 <= j <= c.len(),
    ensures
        j <= whitespace_end(c, j) <= c.len(),
        j <= annotation_end(c, j) <= c.len(),
    decreases c.len() - j,
{
    if j < c.len() {
        lemma_scan_ends(c, j + 1);
    }
}

proof fn lemma_without_trailing_spaces_bounds(c: Seq<char>, s: int, e: int)
    requires
        s <= e,
    ensures
        s <= without_trailing_spaces(c, s, e) <= e,
        s < e && c[s] != ' ' ==> s < without_trailing_spaces(c, s, e),
    decreases e - s,
{
    if e > s && c[e - 1] == ' ' {
        lemma_without_trailing_spaces_bounds(c, s, e - 1);
    }
}

pub open spec fn is_open_bracket(x: char) -> bool {
    x == '(' || x == '[' || x == '{'
}

pub open spec fn is_close_bracket(x: char) -> bool {
    x == ')' || x == ']' || x == '}'
}

/// The index of the innermost bracket still open in `c[..j]`, when `depth`
/// closers seen to the right of `j` are still to be matched.
pub open spec fn open_bracket_before(c: Seq<char>, j: int, depth: nat) -> Option<int>
    decreases j,
{
    if j <= 0 || j > c.len() {
        None
    } else if is_close_bracket(c[j - 1]) {
        open_bracket_before(c, j - 1, depth + 1)
    } else if is_open_bracket(c[j - 1]) {
        if depth == 0 {
            Some(j - 1)
        } else {
            open_bracket_before(c, j - 1, (depth - 1) as nat)
        }
    } else {
        open_bracket_before(c, j - 1, depth)
    }
}

/// The last character before index `k` that is not whitespace.
pub open spec fn char_before(c: Seq<char>, k: int) -> Option<char>
    decreases k,
{
    if k <= 0 || k > c.len() {
        None
    } else if is_whitespace_spec(c[k - 1]) {
        char_before(c, k - 1)
    } else {
        Some(c[k - 1])
    }
}

/// Characters after which a `{` opens an object literal rather than a block.
pub open spec fn opens_expression(x: char) -> bool {
    x == '=' || x == '(' || x == ',' || x == ':' || x == '[' || x == '?'
}

/// The `:` at `i` separates a property from its value: the innermost
/// bracket open there is a `{` in expression position (after `=`, `(`, `,`,
/// `:`, `[` or `?`), which opens an object literal.
pub open spec fn is_property_colon(c: Seq<char>, i: int) -> bool {
    match open_bracket_before(c, i, 0) {
        Some(k) => c[k] == '{' && match char_before(c, k) {
            Some(p) => opens_expression(p),
            None => false,
        },
        None => false,
    }
}

/// Where scanning resumes when the `:` at `i` starts a removable type
/// annotation: the colon is not an object literal's, and a non-empty run of
/// type characters follows after optional whitespace, followed by the end of
/// line or a terminator, and holding no `.`. The annotation's trailing
/// spaces are kept in the output.
pub open spec fn annotation_at(c: Seq<char>, i: int) -> Option<int> {
    if 0 <= i < c.len() && c[i] == ':' && !is_property_colon(c, i) {
        let s = whitespace_end(c, i + 1);
        let e = annotation_end(c, s);
        let ty = c.subrange(s, e);
        if ty.len() > 0 && (e == c.len() || is_annotation_terminator(c[e])) && !has_char(ty, '.') {
            Some(without_trailing_spaces(c, s, e))
        } else {
            None
        }
    } else {
        None
    }
}

fn open_bracket_before_exec(c: &[char], i: usize) -> (r: Option<usize>)
    requires
        i <= c@.len(),
    ensures
        match r {
            Some(k) => open_bracket_before(c@, i as int, 0) == Some(k as int) && k < i,
            None => open_bracket_before(c@, i as int, 0) is None,
        },
{
    let mut j: usize = i;
    let mut depth: usize = 0;
    while j > 0
        invariant
            j <= i <= c@.len(),
            depth <= i - j,
            open_bracket_before(c@, i as int, 0) == open_bracket_before(c@, j as int, depth as nat),
        decreases j,
    {
        let x = c[j - 1];
        if x == ')' || x == ']' || x == '}' {
            depth = depth + 1;
        } else if x == '(' || x == '[' || x == '{' {
            if depth == 0 {
                return Some(j - 1);
            }
            depth = depth - 1;
        }
        j = j - 1;
    }
    None
}

fn char_before_exec(c: &[char], k: usize) -> (r: Option<char>)
    requires
        k <= c@.len(),
    ensures
        r == char_before(c@, k as int),
{
    let mut j: usize = k;
    while j > 0 && is_whitespace(c[j - 1])
        invariant
            j <= k <= c@.len(),
            char_before(c@, k as int) == char_before(c@, j as int),
        decreases j,
    {
        j = j - 1;
    }
    if j == 0 {
        None
    } else {
        Some(c[j - 1])
    }
}

/// Whether the `:` at `i` is an object literal's.
fn property_colon(c: &[char], i: usize) -> (r: bool)
    requires
        i <= c@.len(),
    ensures
        r == is_property_colon(c@, i as int),
{
    match open_bracket_before_exec(c, i) {
        None => false,
        Some(k) => {
            if c[k] != '{' {
                return false;
            }
            match char_before_exec(c, k) {
                Some(p) => p == '=' || p == '(' || p == ',' || p == ':' || p == '[' || p == '?',
                None => false,
            }
        },
    }
}

/// The line from `i` on with removable type annotations dropped.
pub open spec fn annotations_from(c: Seq<char>, i: int) -> Seq<char>
    decreases c.len() - i,
{
    if i < 0 || i >= c.len() {
        Seq::empty()
    } else {
        match annotation_at(c, i) {
            Some(k) => if i < k <= c.len() {
                annotations_from(c, k)
            } else {
                seq![c[i]] + annotations_from(c, i + 1)
            },
            None => seq![c[i]] + annotations_from(c, i + 1),
        }
    }
}

/// The access modifiers `public `, `private `, `protected `, `readonly ` and
/// `abstract ` removed, in that order.
pub open spec fn remove_modifiers(s: Seq<char>) -> Seq<char> {
    replace_spec(
        replace_spec(
            replace_spec(
                replace_spec(replace_spec(s, "public "@, Seq::empty()), "private "@, Seq::empty()),
                "protected "@,
                Seq::empty(),
            ),
            "readonly "@,
            Seq::empty(),
        ),
        "abstract "@,
        Seq::empty(),
    )
}

pub open spec fn strip_types_spec(c: Seq<char>) -> Seq<char> {
    remove_modifiers(annotations_from(c, 0))
}

/// Drop type annotations after `:` when followed by a type-like token, and
/// access modifiers. The colons of object literals written on the line are
/// preserved.
pub fn strip_parameter_and_variable_types(line: &[char]) -> (r: Vec<char>)
    ensures
        r@ == strip_types_spec(line@),
{
    let n = line.len();
    let mut out: Vec<char> = Vec::new();
    let mut i: usize = 0;
    while i < n
        invariant
            n == line@.len(),
            i <= n,
            annotations_from(line@, 0) == out@ + annotations_from(line@, i as int),
        decreases n - i,
    {
        if line[i] == ':' {
            let mut j: usize = i + 1;
            while j < n && is_whitespace(line[j])
                invariant
                    n == line@.len(),
                    i < j <= n,
                    whitespace_end(line@, i + 1) == whitespace_end(line@, j as int),
                decreases n - j,
            {
                j = j + 1;
            }
            let start = j;
            while j < n && (is_alphanumeric(line[j]) || line[j] == '_' || line[j] == '.' || line[j]
                == '$' || line[j] == '[' || line[j] == ']' || line[j] == '<' || line[j] == '>'
                || line[j] == '|' || line[j] == ' ' || line[j] == '&')
                invariant
                    n == line@.len(),
                    start <= j <= n,
                    annotation_end(line@, start as int) == annotation_end(line@, j as int),
                decreases n - j,
            {
                j = j + 1;
            }
            let ty = vstd::slice::slice_subrange(line, start, j);
            let removable = j > start && (j == n || line[j] == ',' || line[j] == ')' || line[j] == '='
                || line[j] == '{' || line[j] == ';') && !contains_char(ty, '.') && !property_colon(line, i);
            if removable {
                let mut end = j;
                while end > start && line[end - 1] == ' '
                    invariant
                        n == line@.len(),
                        start <= end <= j,
                        j <= n,
                        without_trailing_spaces(line@, start as int, j as int)
                            == without_trailing_spaces(line@, start as int, end as int),
                    decreases end,
                {
                    end = end - 1;
                }
                proof {
                    lemma_without_trailing_spaces_bounds(line@, start as int, j as int);
                    assert(!is_whitespace_spec(line@[start as int]));
                    assert(annotation_at(line@, i as int) == Some(end as int));
                }
                i = end;
                continue;
            }
            assert(annotation_at(line@, i as int) is None);
        }
        let ghost old_out = out@;
        out.push(line[i]);
        assert(out@ =~= old_out + seq![line@[i as int]]);
        i = i + 1;
    }
    assert(out@ + Seq::<char>::empty() =~= out@);
    proof {
        reveal_strlit("public ");
        reveal_strlit("private ");
        reveal_strlit("protected ");
        reveal_strlit("readonly ");
        reveal_strlit("abstract ");
        reveal_strlit("");
        assert(""@ =~= Seq::<char>::empty());
    }
    let o1 = replace_str(out.as_slice(), "public ", "");
    let o2 = replace_str(o1.as_slice(), "private ", "");
    let o3 = replace_str(o2.as_slice(), "protected ", "");
    let o4 = replace_str(o3.as_slice(), "readonly ", "");
    let o5 = replace_str(o4.as_slice(), "abstract ", "");
    o5
}

/// A line that opens an interface declaration.
pub open spec fn is_interface_start(line: Seq<char>) -> bool {
    let t = trim_start_spec(line);
    starts_with(t, "interface "@) || starts_with(t, "declare interface "@)
}

/// A line that declares a type alias.
pub open spec fn is_type_alias(line: Seq<char>) -> bool {
    let t = trim_start_spec(line);
    starts_with(t, "type "@) && has_char(t, '=')
}

/// The lowering state after a line: whether an interface body is being
/// skipped, and the brace depth inside it.
pub open spec fn next_state(skip: bool, depth: usize, line: Seq<char>) -> (bool, usize) {
    let opens = count_char(line, '{') as usize;
    let closes = count_char(line, '}') as usize;
    if skip {
        let d = sat_sub(sat_add(depth, opens), closes);
        (!(d == 0 && has_char(line, '}')), d)
    } else if is_interface_start(line) {
        let d = sat_sub(opens, closes);
        (d != 0, d)
    } else {
        (false, depth)
    }
}

/// Whether a line in state `skip` is lowered and kept.
pub open spec fn keeps_line(skip: bool, line: Seq<char>) -> bool {
    !skip && !is_interface_start(line) && !is_type_alias(line)
}

/// The lowered form of a kept line, with its newline.
pub open spec fn lowered_line(line: Seq<char>) -> Seq<char> {
    strip_types_spec(assertions_from(line, 0)) + seq!['\n']
}

/// State and output after lowering the lines `ls`.
pub open spec fn lower_lines(ls: Seq<Seq<char>>) -> (bool, usize, Seq<char>)
    decreases ls.len(),
{
    if ls.len() == 0 {
        (false, 0, Seq::empty())
    } else {
        let prev = lower_lines(ls.drop_last());
        let line = ls.last();
        let out = if keeps_line(prev.0, line) {
            prev.2 + lowered_line(line)
        } else {
            prev.2
        };
        let st = next_state(prev.0, prev.1, line);
        (st.0, st.1, out)
    }
}

/// The TypeScript lowering of `source`.
pub open spec fn lower_typescript_spec(source: Seq<char>) -> Seq<char> {
    lower_lines(lines_spec(source)).2
}

/// Lower TypeScript to JavaScript line by line, as characters.
pub fn lower_typescript_chars(source: &str) -> (r: Vec<char>)
    ensures
        r@ == lower_typescript_spec(source@),
{
    let chars = chars_of(source);
    let ls = lines(chars.as_slice());
    let ghost lv = views(ls@);
    let mut output: Vec<char> = Vec::new();
    let mut skip_interface = false;
    let mut brace_depth: usize = 0;
    let mut k: usize = 0;
    while k < ls.len()
        invariant
            lv == views(ls@),
            lv == lines_spec(source@),
            k <= ls@.len(),
            lower_lines(lv.take(k as int)) == (skip_interface, brace_depth, output@),
        decreases ls@.len() - k,
    {
        let line = ls[k].as_slice();
        assert(lv.take(k + 1).drop_last() =~= lv.take(k as int));
        assert(lv.take(k + 1).last() == line@);
        let opens = count_chars(line, '{');
        let closes = count_chars(line, '}');
        let trimmed = trim_start(line);
        if skip_interface {
            brace_depth = brace_depth.saturating_add(opens).saturating_sub(closes);
            if brace_depth == 0 && contains_char(line, '}') {
                skip_interface = false;
            }
            k = k + 1;
            continue;
        }
        if starts_with_str(trimmed, "interface ") || starts_with_str(trimmed, "declare interface ") {
            skip_interface = true;
            brace_depth = opens.saturating_sub(closes);
            if brace_depth == 0 {
                skip_interface = false;
            }
            k = k + 1;
            continue;
        }
        if starts_with_str(trimmed, "type ") && contains_char(trimmed, '=') {
            k = k + 1;
            continue;
        }
        let asserted = strip_typescript_assertions(line);
        let stripped = strip_parameter_and_variable_types(asserted.as_slice());
        let ghost before = output@;
        push_chars(&mut output, stripped.as_slice());
        output.push('\n');
        assert(output@ =~= before + lowered_line(line@));
        k = k + 1;
    }
    assert(lv.take(ls@.len() as int) =~= lv);
    output
}

/// Lower TypeScript to JavaScript. Interface declarations and type aliases
/// are dropped; each other line has its type assertions, annotations and
/// access modifiers removed. Other syntax is left as written.
pub fn lower_typescript(source: &str) -> (r: Result<String, String>)
    ensures
        r matches Ok(s) && s@ == lower_typescript_spec(source@),
{
    let v = lower_typescript_chars(source);
    Ok(string_from_chars(v.as_slice()))
}

/// Nothing in the line is for the lowering to act on: no character is a
/// quote or a `:`.
pub open spec fn is_plain_line(line: Seq<char>) -> bool {
    forall|i: int| 0 <= i < line.len() ==> !is_quote(#[trigger] line[i]) && line[i] != ':'
}

proof fn lemma_plain_assertions(c: Seq<char>, i: int)
    requires
        is_plain_line(c),
        !seq_contains(c, as_marker()),
        0 <= i <= c.len(),
    ensures
        assertions_from(c, i) == c.skip(i),
    decreases c.len() - i,
{
    if i < c.len() {
        assert(!matches_at(c, as_marker(), i));
        assert(!is_quote(c[i]));
        lemma_plain_assertions(c, i + 1);
        assert(seq![c[i]] + c.skip(i + 1) =~= c.skip(i));
    } else {
        assert(c.skip(i) =~= Seq::<char>::empty());
    }
}

proof fn lemma_plain_annotations(c: Seq<char>, i: int)
    requires
        is_plain_line(c),
        0 <= i <= c.len(),
    ensures
        annotations_from(c, i) == c.skip(i),
    decreases c.len() - i,
{
    if i < c.len() {
        assert(c[i] != ':');
        lemma_plain_annotations(c, i + 1);
        assert(seq![c[i]] + c.skip(i + 1) =~= c.skip(i));
    } else {
        assert(c.skip(i) =~= Seq::<char>::empty());
    }
}

proof fn lemma_find_absent(s: Seq<char>, p: Seq<char>, i: int)
    requires
        !seq_contains(s, p),
    ensures
        find_from(s, p, i) is None,
    decreases s.len() - i,
{
    if i < 0 || i + p.len() > s.len() {
    } else {
        assert(!matches_at(s, p, i));
        lemma_find_absent(s, p, i + 1);
    }
}

proof fn lemma_replace_absent(s: Seq<char>, p: Seq<char>)
    requires
        !seq_contains(s, p),
    ensures
        replace_spec(s, p, Seq::empty()) == s,
{
    lemma_find_absent(s, p, 0);
    assert(s.subrange(0, s.len() as int) =~= s);
}

/// A line with nothing for the lowering to act on (no quote, no `:`, no
/// ` as `, no access modifier) is kept as it is, whatever its characters.
pub proof fn lemma_plain_line_kept(line: Seq<char>)
    requires
        is_plain_line(line),
        !seq_contains(line, as_marker()),
        !seq_contains(line, "public "@),
        !seq_contains(line, "private "@),
        !seq_contains(line, "protected "@),
        !seq_contains(line, "readonly "@),
        !seq_contains(line, "abstract "@),
    ensures
        lowered_line(line) == line + seq!['\n'],
{
    lemma_plain_assertions(line, 0);
    assert(line.skip(0) =~= line);
    lemma_plain_annotations(line, 0);
    lemma_replace_absent(line, "public "@);
    lemma_replace_absent(line, "private "@);
    lemma_replace_absent(line, "protected "@);
    lemma_replace_absent(line, "readonly "@);
    lemma_replace_absent(line, "abstract "@);
}

/// The colons of object literals are kept: no type annotation is read at a
/// colon whose innermost open bracket is a `{` in expression position.
pub proof fn lemma_property_colons_kept(c: Seq<char>, i: int)
    requires
        is_property_colon(c, i),
    ensures
        annotation_at(c, i) is None,
{
}

/// One of the access modifiers the lowering strips, with its space.
pub open spec fn is_access_modifier(m: Seq<char>) -> bool {
    m == "public "@ || m == "private "@ || m == "protected "@ || m == "readonly "@ || m == "abstract "@
}

/// A word followed by one space: no space before the last character, which
/// is a space.
spec fn is_spaced_word(w: Seq<char>) -> bool {
    &&& w.len() > 0
    &&& w.last() == ' '
    &&& forall|j: int| 0 <= j < w.len() - 1 ==> w[j] != ' '
}

proof fn lemma_find_none_from(s: Seq<char>, p: Seq<char>, i: int)
    requires
        forall|j: int| j >= i ==> !#[trigger] matches_at(s, p, j),
    ensures
        find_from(s, p, i) is None,
    decreases s.len() - i,
{
    if i < 0 || i + p.len() > s.len() {
    } else {
        lemma_find_none_from(s, p, i + 1);
    }
}

/// A spaced word `p` that is not a suffix of the spaced word `m` and does
/// not occur in `rest` does not occur in `m + rest`.
proof fn lemma_absent_after_word(m: Seq<char>, rest: Seq<char>, p: Seq<char>)
    requires
        is_spaced_word(m),
        is_spaced_word(p),
        !seq_contains(rest, p),
        !(p.len() <= m.len() && m.skip(m.len() - p.len()) == p),
    ensures
        !seq_contains(m + rest, p),
{
    let s = m + rest;
    if seq_contains(s, p) {
        let i = choose|i: int| #[trigger] matches_at(s, p, i);
        let k = m.len() - 1;
        let e = i + p.len() - 1;
        if i >= m.len() {
            assert(matches_at(rest, p, i - m.len())) by {
                assert forall|j: int| 0 <= j < p.len() implies rest[i - m.len() + j] == p[j] by {
                    assert(s[i + j] == p[j]);
                }
            }
        } else if e < k {
            assert(s[i + (p.len() - 1)] == p[p.len() - 1]);
        } else if e > k {
            assert(s[i + (k - i)] == p[k - i]);
        } else {
            assert(m.skip(m.len() - p.len()) =~= p) by {
                assert forall|j: int| 0 <= j < p.len() implies m.skip(m.len() - p.len())[j] == p[j] by {
                    assert(s[i + j] == p[j]);
                }
            }
        }
    }
}

/// Replacing a leading `m` that occurs nowhere else gives what follows it.
proof fn lemma_replace_leading(m: Seq<char>, rest: Seq<char>)
    requires
        is_spaced_word(m),
        !seq_contains(rest, m),
    ensures
        replace_spec(m + rest, m, Seq::empty()) == rest,
{
    let s = m + rest;
    assert(matches_at(s, m, 0));
    assert forall|j: int| j >= m.len() implies !#[trigger] matches_at(s, m, j) by {
        if matches_at(s, m, j) {
            assert(matches_at(rest, m, j - m.len())) by {
                assert forall|t: int| 0 <= t < m.len() implies rest[j - m.len() + t] == m[t] by {
                    assert(s[j + t] == m[t]);
                }
            }
        }
    }
    lemma_find_none_from(s, m, m.len() as int);
    assert(find_from(s, m, 0) == Some(0int));
    assert(crate::text::replace_from(s, m, Seq::empty(), m.len() as int) == s.subrange(
        m.len() as int,
        s.len() as int,
    ));
    assert(s.subrange(0, 0) + Seq::<char>::empty() + s.subrange(m.len() as int, s.len() as int) =~= rest);
}

proof fn lemma_modifier_words()
    ensures
        is_spaced_word("public "@),
        is_spaced_word("private "@),
        is_spaced_word("protected "@),
        is_spaced_word("readonly "@),
        is_spaced_word("abstract "@),
{
    reveal_strlit("public ");
    reveal_strlit("private ");
    reveal_strlit("protected ");
    reveal_strlit("readonly ");
    reveal_strlit("abstract ");
}

/// None of the modifiers is a suffix of another.
proof fn lemma_modifier_suffixes(m: Seq<char>, p: Seq<char>)
    requires
        is_access_modifier(m),
        is_access_modifier(p),
        p != m,
    ensures
        !(p.len() <= m.len() && m.skip(m.len() - p.len()) == p),
{
    reveal_strlit("public ");
    reveal_strlit("private ");
    reveal_strlit("protected ");
    reveal_strlit("readonly ");
    reveal_strlit("abstract ");
    if p.len() <= m.len() && m.skip(m.len() - p.len()) == p {
        assert(m[m.len() - p.len()] == p[0]);
        assert(m[m.len() - 2] == p[p.len() - 2]);
    }
}

/// The modifier `m` is removed from `m + rest`, the others find nothing.
proof fn lemma_remove_leading_modifier(m: Seq<char>, rest: Seq<char>)
    requires
        is_access_modifier(m),
        !seq_contains(rest, "public "@),
        !seq_contains(rest, "private "@),
        !seq_contains(rest, "protected "@),
        !seq_contains(rest, "readonly "@),
        !seq_contains(rest, "abstract "@),
    ensures
        remove_modifiers(m + rest) == rest,
{
    lemma_modifier_words();
    let s = m + rest;
    let a = "public "@;
    let b = "private "@;
    let c = "protected "@;
    let d = "readonly "@;
    let e = "abstract "@;
    assert(is_access_modifier(a) && is_access_modifier(b) && is_access_modifier(c) && is_access_modifier(d)
        && is_access_modifier(e));
    if m == a {
        lemma_replace_leading(m, rest);
        lemma_replace_absent(rest, b);
        lemma_replace_absent(rest, c);
        lemma_replace_absent(rest, d);
        lemma_replace_absent(rest, e);
    } else if m == b {
        lemma_modifier_suffixes(m, a);
        lemma_absent_after_word(m, rest, a);
        lemma_replace_absent(s, a);
        lemma_replace_leading(m, rest);
        lemma_replace_absent(rest, c);
        lemma_replace_absent(rest, d);
        lemma_replace_absent(rest, e);
    } else if m == c {
        lemma_modifier_suffixes(m, a);
        lemma_absent_after_word(m, rest, a);
        lemma_replace_absent(s, a);
        lemma_modifier_suffixes(m, b);
        lemma_absent_after_word(m, rest, b);
        lemma_replace_absent(s, b);
        lemma_replace_leading(m, rest);
        lemma_replace_absent(rest, d);
        lemma_replace_absent(rest, e);
    } else if m == d {
        lemma_modifier_suffixes(m, a);
        lemma_absent_after_word(m, rest, a);
        lemma_replace_absent(s, a);
        lemma_modifier_suffixes(m, b);
        lemma_absent_after_word(m, rest, b);
        lemma_replace_absent(s, b);
        lemma_modifier_suffixes(m, c);
        lemma_absent_after_word(m, rest, c);
        lemma_replace_absent(s, c);
        lemma_replace_leading(m, rest);
        lemma_replace_absent(rest, e);
    } else {
        lemma_modifier_suffixes(m, a);
        lemma_absent_after_word(m, rest, a);
        lemma_replace_absent(s, a);
        lemma_modifier_suffixes(m, b);
        lemma_absent_after_word(m, rest, b);
        lemma_replace_absent(s, b);
        lemma_modifier_suffixes(m, c);
        lemma_absent_after_word(m, rest, c);
        lemma_replace_absent(s, c);
        lemma_modifier_suffixes(m, d);
        lemma_absent_after_word(m, rest, d);
        lemma_replace_absent(s, d);
        lemma_replace_leading(m, rest);
    }
}

/// Every access modifier the lowering strips is removed: a one-line source
/// `m + rest`, where `m` is `public `, `private `, `protected `, `readonly `
/// or `abstract ` and `rest` holds no quote, `:`, line break, ` as ` or
/// modifier, lowers to `rest` and a newline.
pub proof fn lemma_leading_modifier_removed(m: Seq<char>, rest: Seq<char>)
    requires
        is_access_modifier(m),
        is_plain_line(rest),
        !has_char(rest, '\n'),
        !seq_contains(m + rest, as_marker()),
        !seq_contains(rest, "public "@),
        !seq_contains(rest, "private "@),
        !seq_contains(rest, "protected "@),
        !seq_contains(rest, "readonly "@),
        !seq_contains(rest, "abstract "@),
    ensures
        lower_typescript_spec(m + rest) == rest + seq!['\n'],
{
    reveal_strlit("public ");
    reveal_strlit("private ");
    reveal_strlit("protected ");
    reveal_strlit("readonly ");
    reveal_strlit("abstract ");
    reveal_strlit("interface ");
    reveal_strlit("declare interface ");
    reveal_strlit("type ");
    let line = m + rest;
    assert(is_plain_line(line)) by {
        assert forall|i: int| 0 <= i < line.len() implies !is_quote(#[trigger] line[i]) && line[i] != ':' by {
            if i >= m.len() {
                assert(line[i] == rest[i - m.len()]);
            }
        }
    }
    assert(!has_char(line, '\n')) by {
        if has_char(line, '\n') {
            let i = choose|i: int| 0 <= i < line.len() && line[i] == '\n';
            if i >= m.len() {
                assert(rest[i - m.len()] == '\n');
            }
        }
    }
    crate::text::lemma_lines_single(line);
    lemma_plain_assertions(line, 0);
    assert(line.skip(0) =~= line);
    lemma_plain_annotations(line, 0);
    lemma_remove_leading_modifier(m, rest);
    assert(trim_start_spec(line) == line);
    assert(!starts_with(line, "interface "@)) by {
        if starts_with(line, "interface "@) {
            assert(line.take(10)[0] == line[0]);
        }
    }
    assert(!starts_with(line, "declare interface "@)) by {
        if starts_with(line, "declare interface "@) {
            assert(line.take(18)[0] == line[0]);
        }
    }
    assert(!starts_with(line, "type "@)) by {
        if starts_with(line, "type "@) {
            assert(line.take(5)[0] == line[0]);
        }
    }
    assert(line[0] == m[0]);
    assert(!is_whitespace_spec(line[0]));
    assert(!is_interface_start(line));
    assert(!is_type_alias(line));
    assert(keeps_line(false, line));
    let ls = seq![line];
    assert(ls.drop_last() =~= Seq::<Seq<char>>::empty());
    assert(ls.last() == line);
    assert(lower_lines(ls.drop_last()) == (false, 0usize, Seq::<char>::empty()));
    assert(lower_lines(ls).2 == Seq::<char>::empty() + lowered_line(line));
    assert(Seq::<char>::empty() + lowered_line(line) =~= lowered_line(line));
}

/// A one-line type alias (`type ` followed by text holding `=`) lowers to
/// nothing, and so does a line that opens an interface declaration.
pub proof fn lemma_declarations_dropped(rest: Seq<char>)
    requires
        !has_char(rest, '\n'),
    ensures
        has_char(rest, '=') ==> lower_typescript_spec("type "@ + rest) == Seq::<char>::empty(),
        lower_typescript_spec("interface "@ + rest) == Seq::<char>::empty(),
{
    reveal_strlit("type ");
    reveal_strlit("interface ");
    let t = "type "@ + rest;
    let f = "interface "@ + rest;
    assert(!has_char(t, '\n')) by {
        if has_char(t, '\n') {
            let i = choose|i: int| 0 <= i < t.len() && t[i] == '\n';
            if i >= 5 {
                assert(rest[i - 5] == '\n');
            }
        }
    }
    assert(!has_char(f, '\n')) by {
        if has_char(f, '\n') {
            let i = choose|i: int| 0 <= i < f.len() && f[i] == '\n';
            if i >= 10 {
                assert(rest[i - 10] == '\n');
            }
        }
    }
    crate::text::lemma_lines_single(t);
    crate::text::lemma_lines_single(f);
    assert(t[0] == 't' && !is_whitespace_spec(t[0]));
    assert(f[0] == 'i' && !is_whitespace_spec(f[0]));
    assert(trim_start_spec(t) == t);
    assert(trim_start_spec(f) == f);
    assert(t.take(5) =~= "type "@);
    assert(f.take(10) =~= "interface "@);
    if has_char(rest, '=') {
        let i = choose|i: int| 0 <= i < rest.len() && rest[i] == '=';
        assert(t[i + 5] == '=');
        assert(is_type_alias(t));
        assert(!keeps_line(false, t));
        assert(seq![t].drop_last() =~= Seq::<Seq<char>>::empty());
        assert(lower_lines(seq![t].drop_last()) == (false, 0usize, Seq::<char>::empty()));
    }
    assert(is_interface_start(f));
    assert(seq![f].drop_last() =~= Seq::<Seq<char>>::empty());
    assert(lower_lines(seq![f].drop_last()) == (false, 0usize, Seq::<char>::empty()));
}

} // verus!
