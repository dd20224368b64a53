//! The INFRA source dialect, lowered to JavaScript for the browser's script
//! engine. Desktop-only INFRA operations (Tkinter windows, winsound,
//! PyInstaller, subprocesses) have no counterpart: UI commands become DOM
//! operations, sound commands become Web Audio calls, and `PACK` (an
//! external compiler) is refused.

use vstd::prelude::*;
use vstd::slice::slice_subrange;
use crate::numbers::{int_decimal, is_float_literal, is_float_literal_exec, parse_i64, parse_i64_spec, push_i64};
use crate::text::{
    has_char, matches_at, replace_from, ascii_lower, chars_eq, chars_of, eq_str, find_from, is_ascii_alphanumeric, lemma_find_some,
    push_chars, push_str, replace_chars, replace_spec, split_chars, split_from, split_once_chars,
    split_once_spec, split_once_str, split_spec, split_str, to_ascii_lowercase, to_vec, trim, trim_spec,
    trim_start_spec, trim_end_spec, views,
};

verus! {

/// `value` as a double-quoted JavaScript string literal: backslashes, double
/// quotes and newlines escaped.
pub open spec fn js_string_spec(v: Seq<char>) -> Seq<char> {
    seq!['"'] + replace_spec(
        replace_spec(replace_spec(v, seq!['\\'], seq!['\\', '\\']), seq!['"'], seq!['\\', '"']),
        seq!['\n'],
        seq!['\\', 'n'],
    ) + seq!['"']
}

/// Each character of `s` replaced by `f` of it, in order.
pub open spec fn flat_map_chars(s: Seq<char>, f: spec_fn(char) -> Seq<char>) -> Seq<char>
    decreases s.len(),
{
    if s.len() == 0 {
        Seq::empty()
    } else {
        f(s[0]) + flat_map_chars(s.drop_first(), f)
    }
}

/// `p` replaced by `r`, every other character kept.
pub open spec fn subst(p: char, r: Seq<char>) -> spec_fn(char) -> Seq<char> {
    |c: char| if c == p { r } else { seq![c] }
}

/// How `js_string` writes one character.
pub open spec fn js_escape_char(c: char) -> Seq<char> {
    if c == '\\' {
        seq!['\\', '\\']
    } else if c == '"' {
        seq!['\\', '"']
    } else if c == '\n' {
        seq!['\\', 'n']
    } else {
        seq![c]
    }
}

/// Reading a JavaScript string body back: `\\`, `\"` and `\n` stand for a
/// backslash, a quote and a newline.
pub open spec fn js_unescape(s: Seq<char>) -> Seq<char>
    decreases s.len(),
{
    if s.len() == 0 {
        Seq::empty()
    } else if s[0] == '\\' && s.len() >= 2 {
        seq![if s[1] == 'n' { '\n' } else { s[1] }] + js_unescape(s.skip(2))
    } else {
        seq![s[0]] + js_unescape(s.skip(1))
    }
}

proof fn lemma_flat_concat(a: Seq<char>, b: Seq<char>, f: spec_fn(char) -> Seq<char>)
    ensures
        flat_map_chars(a + b, f) == flat_map_chars(a, f) + flat_map_chars(b, f),
    decreases a.len(),
{
    if a.len() == 0 {
        assert(a + b =~= b);
    } else {
        assert((a + b).drop_first() =~= a.drop_first() + b);
        lemma_flat_concat(a.drop_first(), b, f);
        assert(f(a[0]) + (flat_map_chars(a.drop_first(), f) + flat_map_chars(b, f)) =~= (f(a[0])
            + flat_map_chars(a.drop_first(), f)) + flat_map_chars(b, f));
    }
}

proof fn lemma_flat_compose(s: Seq<char>, f: spec_fn(char) -> Seq<char>, g: spec_fn(char) -> Seq<char>)
    ensures
        flat_map_chars(flat_map_chars(s, f), g) == flat_map_chars(s, |c: char| flat_map_chars(f(c), g)),
    decreases s.len(),
{
    if s.len() > 0 {
        lemma_flat_concat(f(s[0]), flat_map_chars(s.drop_first(), f), g);
        lemma_flat_compose(s.drop_first(), f, g);
    }
}

proof fn lemma_replace_step(s: Seq<char>, p: char, r: Seq<char>, i: int)
    requires
        0 <= i < s.len(),
    ensures
        replace_from(s, seq![p], r, i) == subst(p, r)(s[i]) + replace_from(s, seq![p], r, i + 1),
{
    let pat = seq![p];
    if s[i] == p {
        assert(matches_at(s, pat, i));
        assert(s.subrange(i, i) =~= Seq::<char>::empty());
        assert(Seq::<char>::empty() + r + replace_from(s, pat, r, i + 1) =~= r + replace_from(s, pat, r, i + 1));
    } else {
        assert(!matches_at(s, pat, i)) by {
            assert(pat[0] == p);
        }
        assert(find_from(s, pat, i) == find_from(s, pat, i + 1));
        match find_from(s, pat, i + 1) {
            Some(k) => {
                lemma_find_some(s, pat, i + 1, k);
                assert(s.subrange(i, k) =~= seq![s[i]] + s.subrange(i + 1, k));
                assert(s.subrange(i, k) + r + replace_from(s, pat, r, k + 1) =~= seq![s[i]] + (s.subrange(
                    i + 1,
                    k,
                ) + r + replace_from(s, pat, r, k + 1)));
            },
            None => {
                assert(s.subrange(i, s.len() as int) =~= seq![s[i]] + s.subrange(i + 1, s.len() as int));
            },
        }
    }
}

/// Replacing one character by a string is mapping every character.
proof fn lemma_replace_char(s: Seq<char>, p: char, r: Seq<char>, i: int)
    requires
        0 <= i <= s.len(),
    ensures
        replace_from(s, seq![p], r, i) == flat_map_chars(s.skip(i), subst(p, r)),
    decreases s.len() - i,
{
    if i == s.len() {
        assert(s.skip(i) =~= Seq::<char>::empty());
        assert(s.subrange(i, s.len() as int) =~= Seq::<char>::empty());
    } else {
        lemma_replace_step(s, p, r, i);
        lemma_replace_char(s, p, r, i + 1);
        assert(s.skip(i).drop_first() =~= s.skip(i + 1));
        assert(s.skip(i)[0] == s[i]);
    }
}

proof fn lemma_escape_is_map(v: Seq<char>)
    ensures
        js_string_spec(v) == seq!['"'] + flat_map_chars(v, |c: char| js_escape_char(c)) + seq!['"'],
{
    let f1 = subst('\\', seq!['\\', '\\']);
    let f2 = subst('"', seq!['\\', '"']);
    let f3 = subst('\n', seq!['\\', 'n']);
    lemma_replace_char(v, '\\', seq!['\\', '\\'], 0);
    assert(v.skip(0) =~= v);
    let a = flat_map_chars(v, f1);
    lemma_replace_char(a, '"', seq!['\\', '"'], 0);
    assert(a.skip(0) =~= a);
    let b = flat_map_chars(a, f2);
    lemma_replace_char(b, '\n', seq!['\\', 'n'], 0);
    assert(b.skip(0) =~= b);
    lemma_flat_compose(v, f1, f2);
    let h12 = |c: char| flat_map_chars(f1(c), f2);
    lemma_flat_compose(v, h12, f3);
    let h = |c: char| flat_map_chars(h12(c), f3);
    assert forall|c: char| #[trigger] h(c) == js_escape_char(c) by {
        reveal_with_fuel(flat_map_chars, 3);
        if c == '\\' {
            assert(flat_map_chars(seq!['\\', '\\'], f2) =~= seq!['\\', '\\']);
            assert(flat_map_chars(seq!['\\', '\\'], f3) =~= seq!['\\', '\\']);
        } else if c == '"' {
            assert(flat_map_chars(seq![c], f2) =~= seq!['\\', '"']);
            assert(flat_map_chars(seq!['\\', '"'], f3) =~= seq!['\\', '"']);
        } else if c == '\n' {
            assert(flat_map_chars(seq![c], f2) =~= seq![c]);
            assert(flat_map_chars(seq![c], f3) =~= seq!['\\', 'n']);
        } else {
            assert(flat_map_chars(seq![c], f2) =~= seq![c]);
            assert(flat_map_chars(seq![c], f3) =~= seq![c]);
        }
    }
    assert(h =~= (|c: char| js_escape_char(c)));
}

/// The escaped body of a string literal.
pub open spec fn js_escaped(v: Seq<char>) -> Seq<char> {
    flat_map_chars(v, |c: char| js_escape_char(c))
}

proof fn lemma_unescape_map(v: Seq<char>)
    ensures
        js_unescape(js_escaped(v)) == v,
        forall|i: int| 0 <= i < js_escaped(v).len() ==> #[trigger] js_escaped(v)[i] != '\n',
    decreases v.len(),
{
    let f = |c: char| js_escape_char(c);
    if v.len() > 0 {
        lemma_unescape_map(v.drop_first());
        let rest = js_escaped(v.drop_first());
        let e = js_escape_char(v[0]);
        let all = e + rest;
        assert(js_escaped(v) == all);
        if e.len() == 2 {
            assert(all.skip(2) =~= rest);
            assert(all[0] == '\\');
        } else {
            assert(all.skip(1) =~= rest);
            assert(all[0] == v[0]);
        }
        assert(js_unescape(all) =~= seq![v[0]] + v.drop_first());
        assert forall|i: int| 0 <= i < all.len() implies #[trigger] all[i] != '\n' by {
            if i >= e.len() {
                assert(all[i] == rest[i - e.len()]);
            }
        }
    }
}

/// `js_string` gives a string literal that reads back as the value: it is
/// quoted at both ends, holds no raw newline, and undoing its escapes gives
/// the value again.
pub proof fn lemma_js_string_round_trip(v: Seq<char>)
    ensures
        js_string_spec(v).len() >= 2,
        js_string_spec(v)[0] == '"',
        js_string_spec(v).last() == '"',
        !has_char(js_string_spec(v), '\n'),
        js_unescape(js_string_spec(v).subrange(1, js_string_spec(v).len() - 1)) == v,
{
    lemma_escape_is_map(v);
    lemma_unescape_map(v);
    let body = flat_map_chars(v, |c: char| js_escape_char(c));
    let r = js_string_spec(v);
    assert(r.subrange(1, r.len() - 1) =~= body);
    assert(!has_char(r, '\n')) by {
        if has_char(r, '\n') {
            let i = choose|i: int| 0 <= i < r.len() && r[i] == '\n';
            assert(r[i] == body[i - 1]);
        }
    }
}

pub fn js_string(value: &[char]) -> (r: Vec<char>)
    ensures
        r@ == js_string_spec(value@),
{
    let bs: Vec<char> = vec!['\\'];
    let bs2: Vec<char> = vec!['\\', '\\'];
    let q: Vec<char> = vec!['"'];
    let q2: Vec<char> = vec!['\\', '"'];
    let nl: Vec<char> = vec!['\n'];
    let nl2: Vec<char> = vec!['\\', 'n'];
    assert(bs@ =~= seq!['\\']);
    assert(bs2@ =~= seq!['\\', '\\']);
    assert(q@ =~= seq!['"']);
    assert(q2@ =~= seq!['\\', '"']);
    assert(nl@ =~= seq!['\n']);
    assert(nl2@ =~= seq!['\\', 'n']);
    let a = replace_chars(value, bs.as_slice(), bs2.as_slice());
    let b = replace_chars(a.as_slice(), q.as_slice(), q2.as_slice());
    let c = replace_chars(b.as_slice(), nl.as_slice(), nl2.as_slice());
    let mut out: Vec<char> = Vec::new();
    out.push('"');
    push_chars(&mut out, c.as_slice());
    out.push('"');
    assert(out@ =~= js_string_spec(value@));
    out
}

/// An ASCII identifier: a letter or `_`, then letters, digits or `_`.
pub open spec fn is_identifier_spec(v: Seq<char>) -> bool {
    &&& v.len() > 0
    &&& (v[0] == '_' || ('A' <= v[0] && v[0] <= 'Z') || ('a' <= v[0] && v[0] <= 'z'))
    &&& forall|i: int| 1 <= i < v.len() ==> (v[i] == '_' || is_ascii_alphanumeric(#[trigger] v[i]))
}

pub fn is_identifier(value: &[char]) -> (r: bool)
    ensures
        r == is_identifier_spec(value@),
{
    if value.len() == 0 {
        return false;
    }
    let c = value[0];
    if !(c == '_' || ('A' <= c && c <= 'Z') || ('a' <= c && c <= 'z')) {
        return false;
    }
    let mut i: usize = 1;
    while i < value.len()
        invariant
            1 <= i <= value@.len(),
            forall|j: int| 1 <= j < i ==> (value@[j] == '_' || is_ascii_alphanumeric(#[trigger] value@[j])),
        decreases value@.len() - i,
    {
        let d = value[i];
        if !(d == '_' || ('A' <= d && d <= 'Z') || ('a' <= d && d <= 'z') || ('0' <= d && d <= '9')) {
            return false;
        }
        i = i + 1;
    }
    true
}

/// The trimmed text between the first `open` and the next `close` after it.
pub open spec fn between_spec(v: Seq<char>, open: char, close: char) -> Option<Seq<char>> {
    match split_once_spec(v, seq![open]) {
        Some(p) => match split_once_spec(p.1, seq![close]) {
            Some(q) => Some(trim_spec(q.0)),
            None => None,
        },
        None => None,
    }
}

fn between(value: &[char], open: char, close: char) -> (r: Option<Vec<char>>)
    ensures
        r matches Some(v) ==> between_spec(value@, open, close) == Some(v@),
        r is None ==> between_spec(value@, open, close) is None,
{
    let o: Vec<char> = vec![open];
    let c: Vec<char> = vec![close];
    assert(o@ =~= seq![open]);
    assert(c@ =~= seq![close]);
    match split_once_chars(value, o.as_slice()) {
        Some((_, rest)) => match split_once_chars(rest.as_slice(), c.as_slice()) {
            Some((inner, _)) => Some(to_vec(trim(inner.as_slice()))),
            None => None,
        },
        None => None,
    }
}

/// The trimmed text between the first two `%`.
pub fn extract_percent(value: &[char]) -> (r: Option<Vec<char>>)
    ensures
        r matches Some(v) ==> between_spec(value@, '%', '%') == Some(v@),
        r is None ==> between_spec(value@, '%', '%') is None,
{
    between(value, '%', '%')
}

/// The trimmed text between the first `(` and the next `)`.
pub fn extract_parenthesized(value: &[char]) -> (r: Option<Vec<char>>)
    ensures
        r matches Some(v) ==> between_spec(value@, '(', ')') == Some(v@),
        r is None ==> between_spec(value@, '(', ')') is None,
{
    between(value, '(', ')')
}

/// The integer in the first `<...>` after the first `marker`.
pub open spec fn angle_after_spec(v: Seq<char>, marker: Seq<char>) -> Option<i64> {
    match split_once_spec(v, marker) {
        Some(p) => match between_spec(p.1, '<', '>') {
            Some(content) => parse_i64_spec(content),
            None => None,
        },
        None => None,
    }
}

pub fn extract_angle_after(value: &[char], marker: &str) -> (r: Option<i64>)
    ensures
        r == angle_after_spec(value@, marker@),
{
    match split_once_str(value, marker) {
        Some((_, after)) => match between(after.as_slice(), '<', '>') {
            Some(content) => parse_i64(content.as_slice()),
            None => None,
        },
        None => None,
    }
}

pub open spec fn unwrap_or_i64(o: Option<i64>, d: i64) -> i64 {
    match o {
        Some(v) => v,
        None => d,
    }
}

/// Pieces joined with `sep` between them.
pub open spec fn join_spec(fs: Seq<Seq<char>>, sep: Seq<char>) -> Seq<char>
    decreases fs.len(),
{
    if fs.len() == 0 {
        Seq::empty()
    } else if fs.len() == 1 {
        fs[0]
    } else {
        join_spec(fs.drop_last(), sep) + sep + fs.last()
    }
}

/// `v` is wrapped in `open` ... `close`.
pub open spec fn wrapped(v: Seq<char>, open: char, close: char) -> bool {
    v.len() > 0 && v[0] == open && v.last() == close
}

pub open spec fn inner(v: Seq<char>) -> Seq<char> {
    v.subrange(1, v.len() - 1)
}

/// The JavaScript for an INFRA value: `/.../\` a raw expression with angle
/// brackets dropped, `<...>` a raw expression, `(...)` a string, `{...}` a
/// boolean, `[k: v, ...]` an object; otherwise a known variable name or a
/// number as written, and anything else a string.
pub open spec fn infra_expr_spec(value: Seq<char>, memory: Seq<Seq<char>>) -> Seq<char>
    decreases value.len(), 1int, 0int,
{
    let v = trim_spec(value);
    if wrapped(v, '/', '\\') && v.len() >= 2 {
        replace_spec(replace_spec(trim_spec(inner(v)), seq!['<'], Seq::empty()), seq!['>'], Seq::empty())
    } else if wrapped(v, '<', '>') && v.len() >= 2 {
        trim_spec(inner(v))
    } else if wrapped(v, '(', ')') && v.len() >= 2 {
        js_string_spec(inner(v))
    } else if wrapped(v, '{', '}') && v.len() >= 2 {
        if ascii_lower(trim_spec(inner(v))) == seq!['t', 'r', 'u', 'e'] {
            seq!['t', 'r', 'u', 'e']
        } else {
            seq!['f', 'a', 'l', 's', 'e']
        }
    } else if wrapped(v, '[', ']') && v.len() >= 2 {
        seq!['{'] + join_spec(
            infra_fields_spec(split_spec(inner(v), seq![',']), memory, value.len() as int),
            seq![','],
        ) + seq!['}']
    } else if memory.contains(v) || is_float_literal(v) {
        v
    } else {
        js_string_spec(v)
    }
}

/// The `key:value` object fields for the pieces of an INFRA object; pieces
/// without `:` are dropped. Values are only lowered when shorter than
/// `bound`, which every piece of a shorter object is.
pub open spec fn infra_fields_spec(pieces: Seq<Seq<char>>, memory: Seq<Seq<char>>, bound: int) -> Seq<
    Seq<char>,
>
    decreases bound, 0int, pieces.len(),
{
    if pieces.len() == 0 {
        Seq::empty()
    } else {
        let prev = infra_fields_spec(pieces.drop_last(), memory, bound);
        match split_once_spec(pieces.last(), seq![':']) {
            Some(kv) => {
                let val = trim_spec(kv.1);
                if val.len() < bound {
                    prev.push(js_string_spec(trim_spec(kv.0)) + seq![':'] + infra_expr_spec(val, memory))
                } else {
                    prev
                }
            },
            None => prev,
        }
    }
}

pub proof fn lemma_trim_len(s: Seq<char>)
    ensures
        trim_spec(s).len() <= s.len(),
        trim_start_spec(s).len() <= s.len(),
{
    lemma_trim_start_len(s);
    lemma_trim_end_len(trim_start_spec(s));
}

proof fn lemma_trim_start_len(s: Seq<char>)
    ensures
        trim_start_spec(s).len() <= s.len(),
    decreases s.len(),
{
    if s.len() > 0 {
        lemma_trim_start_len(s.drop_first());
    }
}

proof fn lemma_trim_end_len(s: Seq<char>)
    ensures
        trim_end_spec(s).len() <= s.len(),
    decreases s.len(),
{
    if s.len() > 0 {
        lemma_trim_end_len(s.drop_last());
    }
}

pub proof fn lemma_split_piece_len(s: Seq<char>, p: Seq<char>, i: int)
    requires
        0 <= i <= s.len(),
    ensures
        forall|k: int| 0 <= k < split_from(s, p, i).len() ==> (#[trigger] split_from(s, p, i)[k]).len() <= s.len() - i,
    decreases s.len() - i,
{
    if p.len() == 0 {
    } else {
        match find_from(s, p, i) {
            Some(k) => {
                if k < i || k + p.len() > s.len() {
                } else {
                    lemma_split_piece_len(s, p, k + p.len());
                    let rest = split_from(s, p, k + p.len());
                    assert(split_from(s, p, i) == seq![s.subrange(i, k)] + rest);
                    assert forall|j: int| 0 <= j < split_from(s, p, i).len() implies (
                    #[trigger] split_from(s, p, i)[j]).len() <= s.len() - i by {
                        if j > 0 {
                            assert(split_from(s, p, i)[j] == rest[j - 1]);
                        }
                    }
                }
            },
            None => {},
        }
    }
}

fn memory_contains(memory: &Vec<Vec<char>>, v: &[char]) -> (r: bool)
    ensures
        r == views(memory@).contains(v@),
{
    let mut i: usize = 0;
    while i < memory.len()
        invariant
            i <= memory@.len(),
            forall|j: int| 0 <= j < i ==> memory@[j]@ != v@,
        decreases memory@.len() - i,
    {
        if chars_eq(memory[i].as_slice(), v) {
            assert(views(memory@)[i as int] == v@);
            return true;
        }
        i = i + 1;
    }
    assert forall|j: int| 0 <= j < views(memory@).len() implies views(memory@)[j] != v@ by {
        assert(views(memory@)[j] == memory@[j]@);
    }
    false
}

/// Lower an INFRA value to JavaScript.
pub fn infra_expression_to_js(value: &[char], memory: &Vec<Vec<char>>) -> (r: Vec<char>)
    ensures
        r@ == infra_expr_spec(value@, views(memory@)),
    decreases value@.len(),
{
    let v = trim(value);
    proof {
        lemma_trim_len(value@);
    }
    let n = v.len();
    if n >= 2 && v[0] == '/' && v[n - 1] == '\\' {
        let t = trim(slice_subrange(v, 1, n - 1));
        let lt: Vec<char> = vec!['<'];
        let gt: Vec<char> = vec!['>'];
        let none: Vec<char> = Vec::new();
        assert(lt@ =~= seq!['<']);
        assert(gt@ =~= seq!['>']);
        assert(none@ =~= Seq::<char>::empty());
        let a = replace_chars(t, lt.as_slice(), none.as_slice());
        return replace_chars(a.as_slice(), gt.as_slice(), none.as_slice());
    }
    if n >= 2 && v[0] == '<' && v[n - 1] == '>' {
        return to_vec(trim(slice_subrange(v, 1, n - 1)));
    }
    if n >= 2 && v[0] == '(' && v[n - 1] == ')' {
        return js_string(slice_subrange(v, 1, n - 1));
    }
    if n >= 2 && v[0] == '{' && v[n - 1] == '}' {
        let lowered = to_ascii_lowercase(trim(slice_subrange(v, 1, n - 1)));
        let t: Vec<char> = vec!['t', 'r', 'u', 'e'];
        let f: Vec<char> = vec!['f', 'a', 'l', 's', 'e'];
        assert(t@ =~= seq!['t', 'r', 'u', 'e']);
        assert(f@ =~= seq!['f', 'a', 'l', 's', 'e']);
        if chars_eq(lowered.as_slice(), t.as_slice()) {
            return t;
        } else {
            return f;
        }
    }
    if n >= 2 && v[0] == '[' && v[n - 1] == ']' {
        let content = slice_subrange(v, 1, n - 1);
        let comma: Vec<char> = vec![','];
        let colon: Vec<char> = vec![':'];
        assert(comma@ =~= seq![',']);
        assert(colon@ =~= seq![':']);
        let pieces = split_chars(content, comma.as_slice());
        let ghost pv = views(pieces@);
        proof {
            lemma_split_piece_len(content@, seq![','], 0);
        }
        let mut out: Vec<char> = Vec::new();
        out.push('{');
        let mut any = false;
        let ghost mut fields: Seq<Seq<char>> = Seq::empty();
        let mut i: usize = 0;
        while i < pieces.len()
            invariant
                pv == views(pieces@),
                pv == split_spec(content@, seq![',']),
                forall|k: int| 0 <= k < pv.len() ==> (#[trigger] pv[k]).len() <= content@.len(),
                content@.len() < value@.len(),
                colon@ == seq![':'],
                i <= pieces@.len(),
                fields == infra_fields_spec(pv.take(i as int), views(memory@), value@.len() as int),
                any == (fields.len() > 0),
                out@ == seq!['{'] + join_spec(fields, seq![',']),
            decreases pieces@.len() - i,
        {
            let piece = pieces[i].as_slice();
            assert(pv.take(i + 1).drop_last() =~= pv.take(i as int));
            assert(pv.take(i + 1).last() == piece@);
            match split_once_chars(piece, colon.as_slice()) {
                Some((k, val)) => {
                    let key_js = js_string(trim(k.as_slice()));
                    let tv = trim(val.as_slice());
                    proof {
                        lemma_trim_len(val@);
                        let idx = find_from(piece@, seq![':'], 0)->0;
                        lemma_find_some(piece@, seq![':'], 0, idx);
                        assert(pv[i as int] == piece@);
                    }
                    let val_js = infra_expression_to_js(tv, memory);
                    let ghost old_out = out@;
                    if any {
                        out.push(',');
                    }
                    push_chars(&mut out, key_js.as_slice());
                    out.push(':');
                    push_chars(&mut out, val_js.as_slice());
                    proof {
                        let field = js_string_spec(trim_spec(k@)) + seq![':'] + infra_expr_spec(tv@, views(memory@));
                        let nf = fields.push(field);
                        if fields.len() == 0 {
                            assert(nf.drop_last() =~= fields);
                            assert(out@ =~= seq!['{'] + join_spec(nf, seq![',']));
                        } else {
                            assert(nf.drop_last() =~= fields);
                            assert(out@ =~= seq!['{'] + join_spec(nf, seq![',']));
                        }
                        fields = nf;
                    }
                    any = true;
                },
                None => {},
            }
            i = i + 1;
        }
        assert(pv.take(pieces@.len() as int) =~= pv);
        out.push('}');
        return out;
    }
    if memory_contains(memory, v) || is_float_literal_exec(v) {
        return to_vec(v);
    }
    js_string(v)
}

/// `s.split(p).nth(n)`.
pub open spec fn nth_piece(s: Seq<char>, p: Seq<char>, n: int) -> Option<Seq<char>> {
    let ps = split_spec(s, p);
    if 0 <= n < ps.len() {
        Some(ps[n])
    } else {
        None
    }
}

/// `s.split(p).next()`, always present.
pub open spec fn first_piece(s: Seq<char>, p: Seq<char>) -> Seq<char> {
    split_spec(s, p)[0]
}

pub proof fn lemma_split_nonempty(s: Seq<char>, p: Seq<char>, i: int)
    ensures
        split_from(s, p, i).len() > 0,
    decreases s.len() - i,
{
    if p.len() == 0 || i < 0 || i > s.len() {
    } else {
        match find_from(s, p, i) {
            Some(k) => {
                if !(k < i || k + p.len() > s.len()) {
                    lemma_split_nonempty(s, p, k + p.len());
                }
            },
            None => {},
        }
    }
}

/// The piece after the first `p` and before the next one, or `None`.
fn nth_piece_one(s: &[char], p: &str) -> (r: Option<Vec<char>>)
    requires
        p@.len() > 0,
    ensures
        r matches Some(v) ==> nth_piece(s@, p@, 1) == Some(v@),
        r is None ==> nth_piece(s@, p@, 1) is None,
{
    let ps = split_str(s, p);
    if ps.len() > 1 {
        assert(views(ps@)[1] == ps@[1]@);
        Some(to_vec(ps[1].as_slice()))
    } else {
        None
    }
}

/// The piece before the first `p`.
fn first_piece_of(s: &[char], p: &str) -> (r: Vec<char>)
    requires
        p@.len() > 0,
    ensures
        r@ == first_piece(s@, p@),
{
    let ps = split_str(s, p);
    proof {
        lemma_split_nonempty(s@, p@, 0);
    }
    assert(views(ps@)[0] == ps@[0]@);
    to_vec(ps[0].as_slice())
}

/// The parts of an `AT X <x> Y <y> CREATE <w X h> WITH TEXT (t) CLR=%bg%
/// TXT CLR=%fg%` command: x, y, width, height, text, background, foreground.
pub open spec fn ui_parts(cmd: Seq<char>) -> Option<(i64, i64, Seq<char>, Seq<char>, Seq<char>, Seq<char>, Seq<char>)> {
    match (angle_after_spec(cmd, "AT X"@), angle_after_spec(cmd, "Y"@), nth_piece(cmd, "CREATE <"@, 1)) {
        (Some(x), Some(y), Some(size_raw)) => {
            match split_once_spec(ascii_upper_seq(first_piece(size_raw, ">"@)), seq!['X']) {
                Some(wh) => match (
                    nth_piece(cmd, "WITH TEXT ("@, 1),
                    nth_piece(cmd, "CLR=%"@, 1),
                    nth_piece(cmd, "TXT CLR=%"@, 1),
                ) {
                    (Some(t), Some(b), Some(f)) => Some(
                        (
                            x,
                            y,
                            wh.0,
                            wh.1,
                            trim_spec(first_piece(t, ")"@)),
                            trim_spec(first_piece(b, "%"@)),
                            trim_spec(first_piece(f, "%"@)),
                        ),
                    ),
                    _ => None,
                },
                None => None,
            }
        },
        _ => None,
    }
}

pub open spec fn ascii_upper_seq(s: Seq<char>) -> Seq<char> {
    crate::text::ascii_upper(s)
}

/// The optional click sound of a UI command: the text after `CLICK=` up to
/// the next `CLR=`, trimmed.
pub open spec fn ui_click(cmd: Seq<char>) -> Option<Seq<char>> {
    match nth_piece(cmd, "CLICK="@, 1) {
        Some(c) => Some(trim_spec(first_piece(c, "CLR="@))),
        None => None,
    }
}

/// The click handler script of a UI command, empty without a frequency.
pub open spec fn ui_click_js(cmd: Seq<char>) -> Seq<char> {
    match ui_click(cmd) {
        Some(click) => match angle_after_spec(click, "play frequency"@) {
            Some(hz) => "e.addEventListener('click',()=>__infraBeep("@ + int_decimal(hz as int) + ","@
                + int_decimal(unwrap_or_i64(angle_after_spec(click, "for"@), 400) as int) + "));"@,
            None => Seq::empty(),
        },
        None => Seq::empty(),
    }
}

/// The DOM script for a UI command, if all its parts are present.
pub open spec fn lower_infra_ui_spec(cmd: Seq<char>) -> Option<Seq<char>> {
    match ui_parts(cmd) {
        Some(parts) => Some(
            "{const e=document.createElement('button');"@ + "e.textContent="@ + js_string_spec(parts.4)
                + ";"@ + "Object.assign(e.style,{position:'absolute',left:'"@ + int_decimal(parts.0 as int)
                + "px',top:'"@ + int_decimal(parts.1 as int) + "px',width:'"@ + trim_spec(parts.2)
                + "px',height:'"@ + trim_spec(parts.3) + "px',background:"@ + js_string_spec(parts.5)
                + " ,color:"@ + js_string_spec(parts.6) + ",border:'0'});"@ + ui_click_js(cmd)
                + "document.body.appendChild(e);}\n"@,
        ),
        None => None,
    }
}

/// Lower an INFRA UI command to a positioned button in the page.
pub fn lower_infra_ui(command: &[char]) -> (r: Option<Vec<char>>)
    ensures
        r matches Some(v) ==> lower_infra_ui_spec(command@) == Some(v@),
        r is None ==> lower_infra_ui_spec(command@) is None,
{
    proof {
        reveal_strlit("CREATE <");
        reveal_strlit(">");
        reveal_strlit("WITH TEXT (");
        reveal_strlit(")");
        reveal_strlit("CLR=%");
        reveal_strlit("TXT CLR=%");
        reveal_strlit("%");
        reveal_strlit("CLICK=");
        reveal_strlit("CLR=");
    }
    let x = match extract_angle_after(command, "AT X") {
        Some(v) => v,
        None => return None,
    };
    let y = match extract_angle_after(command, "Y") {
        Some(v) => v,
        None => return None,
    };
    let size_raw = match nth_piece_one(command, "CREATE <") {
        Some(v) => v,
        None => return None,
    };
    let size = first_piece_of(size_raw.as_slice(), ">");
    let upper = crate::text::to_ascii_uppercase(size.as_slice());
    let xs: Vec<char> = vec!['X'];
    assert(xs@ =~= seq!['X']);
    let (width, height) = match split_once_chars(upper.as_slice(), xs.as_slice()) {
        Some(p) => p,
        None => return None,
    };
    let text_raw = match nth_piece_one(command, "WITH TEXT (") {
        Some(v) => v,
        None => return None,
    };
    let bg_raw = match nth_piece_one(command, "CLR=%") {
        Some(v) => v,
        None => return None,
    };
    let fg_raw = match nth_piece_one(command, "TXT CLR=%") {
        Some(v) => v,
        None => return None,
    };
    let text_piece = first_piece_of(text_raw.as_slice(), ")");
    let bg_piece = first_piece_of(bg_raw.as_slice(), "%");
    let fg_piece = first_piece_of(fg_raw.as_slice(), "%");
    let text = trim(text_piece.as_slice());
    let bg = trim(bg_piece.as_slice());
    let fg = trim(fg_piece.as_slice());
    let ghost parts = ui_parts(command@)->0;
    assert(parts.4 == text@ && parts.5 == bg@ && parts.6 == fg@ && parts.2 == width@ && parts.3
        == height@ && parts.0 == x && parts.1 == y);

    let mut js: Vec<char> = Vec::new();
    push_str(&mut js, "{const e=document.createElement('button');");
    push_str(&mut js, "e.textContent=");
    let text_js = js_string(text);
    push_chars(&mut js, text_js.as_slice());
    push_str(&mut js, ";");
    push_str(&mut js, "Object.assign(e.style,{position:'absolute',left:'");
    push_i64(&mut js, x);
    push_str(&mut js, "px',top:'");
    push_i64(&mut js, y);
    push_str(&mut js, "px',width:'");
    push_chars(&mut js, trim(width.as_slice()));
    push_str(&mut js, "px',height:'");
    push_chars(&mut js, trim(height.as_slice()));
    push_str(&mut js, "px',background:");
    let bg_js = js_string(bg);
    push_chars(&mut js, bg_js.as_slice());
    push_str(&mut js, " ,color:");
    let fg_js = js_string(fg);
    push_chars(&mut js, fg_js.as_slice());
    push_str(&mut js, ",border:'0'});");
    let ghost before_click = js@;
    match nth_piece_one(command, "CLICK=") {
        Some(after) => {
            let click_piece = first_piece_of(after.as_slice(), "CLR=");
            let click = trim(click_piece.as_slice());
            match extract_angle_after(click, "play frequency") {
                Some(hz) => {
                    let ms = match extract_angle_after(click, "for") {
                        Some(v) => v,
                        None => 400,
                    };
                    push_str(&mut js, "e.addEventListener('click',()=>__infraBeep(");
                    push_i64(&mut js, hz);
                    push_str(&mut js, ",");
                    push_i64(&mut js, ms);
                    push_str(&mut js, "));");
                },
                None => {},
            }
        },
        None => {},
    }
    assert(js@ =~= before_click + ui_click_js(command@));
    push_str(&mut js, "document.body.appendChild(e);}\n");
    assert(Some(js@) =~= lower_infra_ui_spec(command@));
    Some(js)
}

pub const INFRA_HEADER: &'static str = "// Bumble Bee INFRA engine\n(() => {\n";

pub const INFRA_STRICT: &'static str = "\"use strict\";\n";

/// Browser-safe tone primitive: Web Audio only, no native process.
/// Its text is `INFRA_BEEP_HEAD`, a `.`, then `INFRA_BEEP_TAIL`: a gain of
/// five hundredths.
pub const INFRA_BEEP_HEAD: &'static str = "function __infraBeep(hz,ms){try{const C=window.AudioContext||window.webkitAudioContext;if(!C)return;const c=new C(),o=c.createOscillator(),g=c.createGain();o.frequency.value=Number(hz);g.gain.value=0";

pub const INFRA_BEEP_TAIL: &'static str = "05;o.connect(g);g.connect(c.destination);o.start();o.stop(c.currentTime+Number(ms)/1000);}catch(_){}}\n";

pub open spec fn infra_beep() -> Seq<char> {
    INFRA_BEEP_HEAD@ + seq!['.'] + INFRA_BEEP_TAIL@
}

pub const INFRA_FOOTER: &'static str = "})();\n";

pub const PACK_DISABLED_ERROR: &'static str = "INFRA PACK is disabled inside the browser engine; it would invoke an external compiler";

pub const UNSUPPORTED_COMMAND_ERROR: &'static str = "INFRA syntax error: unsupported command: ";

pub const NO_COMMANDS_ERROR: &'static str = "INFRA source contains no executable commands";

/// Lowering state: the script so far, the declared variables, and whether
/// any command was seen.
pub struct InfraState {
    pub js: Seq<char>,
    pub memory: Seq<Seq<char>>,
    pub saw: bool,
}

pub open spec fn with_js(st: InfraState, more: Seq<char>) -> InfraState {
    InfraState { js: st.js + more, memory: st.memory, saw: true }
}

/// `name = value` with an identifier name.
pub open spec fn is_assignment(cmd: Seq<char>) -> bool {
    match split_once_spec(cmd, seq!['=']) {
        Some(nv) => is_identifier_spec(trim_spec(nv.0)),
        None => false,
    }
}

/// One command (a piece of a line between `//`), before trimming.
#[verifier::opaque]
pub open spec fn infra_command_spec(st: InfraState, piece: Seq<char>) -> Result<InfraState, Seq<char>> {
    let cmd = trim_spec(piece);
    let seen = InfraState { js: st.js, memory: st.memory, saw: true };
    if cmd.len() == 0 || cmd == "end"@ {
        Ok(st)
    } else if crate::text::starts_with(cmd, "getlib "@) {
        Ok(seen)
    } else if crate::text::starts_with(cmd, "PACK"@) {
        Err(PACK_DISABLED_ERROR@)
    } else if crate::text::starts_with(cmd, "send "@) {
        Ok(with_js(st, "console.log("@ + infra_expr_spec(cmd.skip(5), st.memory) + ");\n"@))
    } else if crate::text::starts_with(cmd, "SAY "@) {
        let rest = cmd.skip(4);
        let text = match between_spec(rest, '(', ')') {
            Some(t) => t,
            None => trim_spec(rest),
        };
        Ok(with_js(st, "console.log("@ + js_string_spec(text) + ");\n"@))
    } else if crate::text::starts_with(cmd, "play frequency "@) {
        let hz = unwrap_or_i64(angle_after_spec(cmd, "play frequency"@), 440);
        let ms = unwrap_or_i64(angle_after_spec(cmd, "for"@), 400);
        Ok(with_js(st, "__infraBeep("@ + int_decimal(hz as int) + ", "@ + int_decimal(ms as int) + ");\n"@))
    } else if crate::text::starts_with(cmd, "BG ="@) && between_spec(cmd.skip(4), '%', '%') is Some {
        let color = between_spec(cmd.skip(4), '%', '%')->0;
        Ok(with_js(st, "document.documentElement.style.backgroundColor="@ + js_string_spec(color)
            + ";document.body.style.backgroundColor="@ + js_string_spec(color) + ";\n"@))
    } else if crate::text::starts_with(cmd, "AT X"@) && lower_infra_ui_spec(cmd) is Some {
        Ok(with_js(st, lower_infra_ui_spec(cmd)->0))
    } else if is_assignment(cmd) {
        let nv = split_once_spec(cmd, seq!['='])->0;
        let name = trim_spec(nv.0);
        Ok(
            InfraState {
                js: st.js + "let "@ + name + "="@ + infra_expr_spec(trim_spec(nv.1), st.memory) + ";\n"@,
                memory: st.memory.push(name),
                saw: true,
            },
        )
    } else {
        Err(UNSUPPORTED_COMMAND_ERROR@ + cmd)
    }
}

/// The pieces of a line run in order; the first error stops the run.
pub open spec fn run_commands(st: InfraState, pieces: Seq<Seq<char>>) -> Result<InfraState, Seq<char>>
    decreases pieces.len(),
{
    if pieces.len() == 0 {
        Ok(st)
    } else {
        match run_commands(st, pieces.drop_last()) {
            Ok(s2) => infra_command_spec(s2, pieces.last()),
            Err(e) => Err(e),
        }
    }
}

/// Whether a line is blank or a `#` comment once trimmed.
pub open spec fn is_infra_comment(line: Seq<char>) -> bool {
    let t = trim_spec(line);
    t.len() == 0 || t[0] == '#'
}

/// The lines run in order; the first error stops the run.
pub open spec fn run_lines(st: InfraState, ls: Seq<Seq<char>>) -> Result<InfraState, Seq<char>>
    decreases ls.len(),
{
    if ls.len() == 0 {
        Ok(st)
    } else {
        match run_lines(st, ls.drop_last()) {
            Ok(s2) => if is_infra_comment(ls.last()) {
                Ok(s2)
            } else {
                run_commands(s2, split_spec(trim_spec(ls.last()), "//"@))
            },
            Err(e) => Err(e),
        }
    }
}

pub open spec fn infra_initial_state() -> InfraState {
    InfraState { js: INFRA_HEADER@ + INFRA_STRICT@, memory: Seq::empty(), saw: false }
}

/// The JavaScript for an INFRA source, or the error that stops it.
pub open spec fn lower_infra_spec(source: Seq<char>) -> Result<Seq<char>, Seq<char>> {
    match run_lines(infra_initial_state(), crate::text::lines_spec(source)) {
        Ok(st) => if st.saw {
            Ok(st.js + infra_beep() + INFRA_FOOTER@)
        } else {
            Err(NO_COMMANDS_ERROR@)
        },
        Err(e) => Err(e),
    }
}

proof fn lemma_run_commands_error_stays(st: InfraState, pieces: Seq<Seq<char>>, k: int, e: Seq<char>)
    requires
        0 <= k <= pieces.len(),
        run_commands(st, pieces.take(k)) == Err::<InfraState, Seq<char>>(e),
    ensures
        run_commands(st, pieces) == Err::<InfraState, Seq<char>>(e),
    decreases pieces.len() - k,
{
    if k < pieces.len() {
        assert(pieces.take(k + 1).drop_last() =~= pieces.take(k));
        lemma_run_commands_error_stays(st, pieces, k + 1, e);
    } else {
        assert(pieces.take(k) =~= pieces);
    }
}

proof fn lemma_run_lines_error_stays(st: InfraState, ls: Seq<Seq<char>>, k: int, e: Seq<char>)
    requires
        0 <= k <= ls.len(),
        run_lines(st, ls.take(k)) == Err::<InfraState, Seq<char>>(e),
    ensures
        run_lines(st, ls) == Err::<InfraState, Seq<char>>(e),
    decreases ls.len() - k,
{
    if k < ls.len() {
        assert(ls.take(k + 1).drop_last() =~= ls.take(k));
        lemma_run_lines_error_stays(st, ls, k + 1, e);
    } else {
        assert(ls.take(k) =~= ls);
    }
}

/// Lower one INFRA command into `js`, declaring variables in `memory`.
fn lower_infra_command(js: &mut Vec<char>, memory: &mut Vec<Vec<char>>, saw: &mut bool, piece: &[char]) -> (r: Result<(), Vec<char>>)
    ensures
        ({
            let before = InfraState { js: old(js)@, memory: views(old(memory)@), saw: *old(saw) };
            let after = InfraState { js: final(js)@, memory: views(final(memory)@), saw: *final(saw) };
            match r {
                Ok(_) => infra_command_spec(before, piece@) == Ok::<InfraState, Seq<char>>(after),
                Err(e) => infra_command_spec(before, piece@) == Err::<InfraState, Seq<char>>(e@),
            }
        }),
{
    proof {
        reveal(infra_command_spec);
        reveal_strlit("end");
        reveal_strlit("send ");
        reveal_strlit("SAY ");
        reveal_strlit("BG =");
    }
    let ghost before = InfraState { js: js@, memory: views(memory@), saw: *saw };
    let command = trim(piece);
    if command.len() == 0 || eq_str(command, "end") {
        assert(infra_command_spec(before, piece@) == Ok::<InfraState, Seq<char>>(before));
        return Ok(());
    }
    if crate::text::starts_with_str(command, "getlib ") {
        *saw = true;
        assert(infra_command_spec(before, piece@) == Ok::<InfraState, Seq<char>>(InfraState { js: js@, memory: views(memory@), saw: *saw }));
        return Ok(());
    }
    if crate::text::starts_with_str(command, "PACK") {
        return Err(chars_of(PACK_DISABLED_ERROR));
    }
    match crate::text::strip_prefix_str(command, "send ") {
        Some(rest) => {
            let e = infra_expression_to_js(rest.as_slice(), memory);
            push_str(js, "console.log(");
            push_chars(js, e.as_slice());
            push_str(js, ");\n");
            *saw = true;
            assert(js@ =~= before.js + ("console.log("@ + e@ + ");\n"@));
            return Ok(());
        },
        None => {},
    }
    match crate::text::strip_prefix_str(command, "SAY ") {
        Some(rest) => {
            let text = match extract_parenthesized(rest.as_slice()) {
                Some(t) => t,
                None => to_vec(trim(rest.as_slice())),
            };
            let t = js_string(text.as_slice());
            push_str(js, "console.log(");
            push_chars(js, t.as_slice());
            push_str(js, ");\n");
            *saw = true;
            assert(js@ =~= before.js + ("console.log("@ + t@ + ");\n"@));
            return Ok(());
        },
        None => {},
    }
    if crate::text::starts_with_str(command, "play frequency ") {
        let hz = match extract_angle_after(command, "play frequency") {
            Some(v) => v,
            None => 440,
        };
        let ms = match extract_angle_after(command, "for") {
            Some(v) => v,
            None => 400,
        };
        let ghost j0 = js@;
        push_str(js, "__infraBeep(");
        push_i64(js, hz);
        push_str(js, ", ");
        push_i64(js, ms);
        push_str(js, ");\n");
        *saw = true;
        assert(js@ =~= j0 + ("__infraBeep("@ + int_decimal(hz as int) + ", "@ + int_decimal(ms as int) + ");\n"@));
        return Ok(());
    }
    match crate::text::strip_prefix_str(command, "BG =") {
        Some(rest) => match extract_percent(rest.as_slice()) {
            Some(color) => {
                let c = js_string(color.as_slice());
                push_str(js, "document.documentElement.style.backgroundColor=");
                push_chars(js, c.as_slice());
                push_str(js, ";document.body.style.backgroundColor=");
                push_chars(js, c.as_slice());
                push_str(js, ";\n");
                *saw = true;
                assert(js@ =~= before.js + ("document.documentElement.style.backgroundColor="@ + c@
                    + ";document.body.style.backgroundColor="@ + c@ + ";\n"@));
                return Ok(());
            },
            None => {},
        },
        None => {},
    }
    if crate::text::starts_with_str(command, "AT X") {
        match lower_infra_ui(command) {
            Some(element_js) => {
                push_chars(js, element_js.as_slice());
                *saw = true;
                return Ok(());
            },
            None => {},
        }
    }
    let eq: Vec<char> = vec!['='];
    assert(eq@ =~= seq!['=']);
    match split_once_chars(command, eq.as_slice()) {
        Some((name_raw, value)) => {
            let name = trim(name_raw.as_slice());
            if is_identifier(name) {
                let value_js = infra_expression_to_js(trim(value.as_slice()), memory);
                push_str(js, "let ");
                push_chars(js, name);
                push_str(js, "=");
                push_chars(js, value_js.as_slice());
                push_str(js, ";\n");
                assert(js@ =~= before.js + "let "@ + name@ + "="@ + value_js@ + ";\n"@);
                let ghost old_memory = memory@;
                memory.push(to_vec(name));
                assert(views(memory@) =~= views(old_memory).push(name@));
                *saw = true;
                return Ok(());
            }
        },
        None => {},
    }
    let mut err = chars_of(UNSUPPORTED_COMMAND_ERROR);
    push_chars(&mut err, command);
    Err(err)
}

/// Lower an INFRA source to JavaScript wrapped in a strict-mode closure.
/// `PACK`, an unsupported command, or a source without commands is an error.
pub fn lower_infra(source: &str) -> (r: Result<String, String>)
    ensures
        match r {
            Ok(s) => lower_infra_spec(source@) == Ok::<Seq<char>, Seq<char>>(s@),
            Err(e) => lower_infra_spec(source@) == Err::<Seq<char>, Seq<char>>(e@),
        },
{
    let chars = chars_of(source);
    let ls = crate::text::lines(chars.as_slice());
    let ghost lv = views(ls@);
    let mut js: Vec<char> = chars_of(INFRA_HEADER);
    push_str(&mut js, INFRA_STRICT);
    let mut memory: Vec<Vec<char>> = Vec::new();
    let mut saw = false;
    assert(views(memory@) =~= Seq::<Seq<char>>::empty());
    proof {
        reveal_strlit("//");
    }
    let mut k: usize = 0;
    while k < ls.len()
        invariant
            lv == views(ls@),
            lv == crate::text::lines_spec(source@),
            k <= ls@.len(),
            run_lines(infra_initial_state(), lv.take(k as int)) == Ok::<InfraState, Seq<char>>(
                InfraState { js: js@, memory: views(memory@), saw },
            ),
        decreases ls@.len() - k,
    {
        let raw = ls[k].as_slice();
        assert(lv.take(k + 1).drop_last() =~= lv.take(k as int));
        assert(lv.take(k + 1).last() == raw@);
        let line = trim(raw);
        if line.len() == 0 || line[0] == '#' {
            k = k + 1;
            continue;
        }
        proof {
            reveal_strlit("//");
        }
        let pieces = split_str(line, "//");
        let ghost pv = views(pieces@);
        let ghost start = InfraState { js: js@, memory: views(memory@), saw };
        let mut j: usize = 0;
        while j < pieces.len()
            invariant
                pv == views(pieces@),
                pv == split_spec(line@, "//"@),
                j <= pieces@.len(),
                lv == views(ls@),
                lv == crate::text::lines_spec(source@),
                k < ls@.len(),
                run_lines(infra_initial_state(), lv.take(k as int)) == Ok::<InfraState, Seq<char>>(start),
                !is_infra_comment(lv[k as int]),
                line@ == trim_spec(lv[k as int]),
                run_commands(start, pv.take(j as int)) == Ok::<InfraState, Seq<char>>(
                    InfraState { js: js@, memory: views(memory@), saw },
                ),
            decreases pieces@.len() - j,
        {
            assert(pv.take(j + 1).drop_last() =~= pv.take(j as int));
            assert(pv.take(j + 1).last() == pieces@[j as int]@);
            match lower_infra_command(&mut js, &mut memory, &mut saw, pieces[j].as_slice()) {
                Ok(()) => {},
                Err(e) => {
                    proof {
                        lemma_run_commands_error_stays(start, pv, j + 1, e@);
                        assert(pv.take(pv.len() as int) =~= pv);
                        assert(lv.take(k + 1).drop_last() =~= lv.take(k as int));
                        assert(lv.take(k + 1).last() == lv[k as int]);
                        assert(run_lines(infra_initial_state(), lv.take(k + 1)) == Err::<InfraState, Seq<char>>(e@));
                        lemma_run_lines_error_stays(infra_initial_state(), lv, k + 1, e@);
                        assert(lv.take(lv.len() as int) =~= lv);
                    }
                    return Err(crate::text::string_from_chars(e.as_slice()));
                },
            }
            j = j + 1;
        }
        assert(pv.take(pieces@.len() as int) =~= pv);
        assert(lv.take(k + 1).drop_last() =~= lv.take(k as int));
        k = k + 1;
    }
    assert(lv.take(ls@.len() as int) =~= lv);
    if !saw {
        return Err(crate::text::string_from_chars(chars_of(NO_COMMANDS_ERROR).as_slice()));
    }
    push_str(&mut js, INFRA_BEEP_HEAD);
    js.push('.');
    push_str(&mut js, INFRA_BEEP_TAIL);
    push_str(&mut js, INFRA_FOOTER);
    let ghost st = run_lines(infra_initial_state(), lv)->Ok_0;
    assert(js@ =~= st.js + infra_beep() + INFRA_FOOTER@);
    Ok(crate::text::string_from_chars(js.as_slice()))
}

/// The trimmed text between the first `open` and the first `close` after it.
proof fn lemma_between_chars(a: Seq<char>, c: Seq<char>, b: Seq<char>, open: char, close: char)
    requires
        !has_char(a, open),
        !has_char(c, close),
    ensures
        between_spec(a + seq![open] + c + seq![close] + b, open, close) == Some(trim_spec(c)),
{
    let x = a + seq![open] + c + seq![close] + b;
    assert(x[a.len() as int] == open);
    assert forall|j: int| 0 <= j < a.len() implies x[j] != open by {
        assert(x[j] == a[j]);
    }
    crate::text::lemma_find_first_char(x, open, 0, a.len() as int);
    assert(x.take(a.len() as int) =~= a);
    let y = x.skip(a.len() + 1int);
    assert(y =~= c + seq![close] + b);
    assert(y[c.len() as int] == close);
    assert forall|j: int| 0 <= j < c.len() implies y[j] != close by {
        assert(y[j] == c[j]);
    }
    crate::text::lemma_find_first_char(y, close, 0, c.len() as int);
    assert(y.take(c.len() as int) =~= c);
}

/// A one-line source that is a single trimmed command compiles as that
/// command run on the initial state.
proof fn lemma_single_command(source: Seq<char>)
    requires
        source.len() > 0,
        source[0] != '#',
        trim_spec(source) == source,
        !has_char(source, '\n'),
        !crate::text::seq_contains(source, "//"@),
    ensures
        lower_infra_spec(source) == match infra_command_spec(infra_initial_state(), source) {
            Ok(st) => if st.saw {
                Ok(st.js + infra_beep() + INFRA_FOOTER@)
            } else {
                Err(NO_COMMANDS_ERROR@)
            },
            Err(e) => Err::<Seq<char>, Seq<char>>(e),
        },
{
    reveal_strlit("//");
    let init = infra_initial_state();
    crate::text::lemma_lines_single(source);
    crate::text::lemma_split_absent(source, "//"@);
    let ls = seq![source];
    assert(ls.drop_last() =~= Seq::<Seq<char>>::empty());
    assert(!is_infra_comment(source));
    assert(run_lines(init, ls.drop_last()) == Ok::<InfraState, Seq<char>>(init));
    assert(ls.last() == source);
    assert(run_lines(init, ls) == run_commands(init, split_spec(trim_spec(ls.last()), "//"@)));
    assert(run_lines(init, ls) == run_commands(init, ls));
    assert(run_commands(init, ls.drop_last()) == Ok::<InfraState, Seq<char>>(init));
    assert(run_commands(init, ls) == infra_command_spec(init, source));
}

/// A command starting with `B` or `S` is none of `end`, `getlib `, `PACK`,
/// `send ` or `play frequency `.
proof fn lemma_not_earlier_commands(cmd: Seq<char>)
    requires
        cmd.len() > 0,
        cmd[0] == 'B' || cmd[0] == 'S',
    ensures
        cmd != "end"@,
        !crate::text::starts_with(cmd, "getlib "@),
        !crate::text::starts_with(cmd, "PACK"@),
        !crate::text::starts_with(cmd, "send "@),
        !crate::text::starts_with(cmd, "play frequency "@),
{
    reveal_strlit("end");
    reveal_strlit("getlib ");
    reveal_strlit("PACK");
    reveal_strlit("send ");
    reveal_strlit("play frequency ");
    if cmd == "end"@ {
        assert(cmd[0] == 'e');
    }
    if crate::text::starts_with(cmd, "getlib "@) {
        assert(cmd.take(7)[0] == cmd[0]);
    }
    if crate::text::starts_with(cmd, "PACK"@) {
        assert(cmd.take(4)[0] == cmd[0]);
    }
    if crate::text::starts_with(cmd, "send "@) {
        assert(cmd.take(5)[0] == cmd[0]);
    }
    if crate::text::starts_with(cmd, "play frequency "@) {
        assert(cmd.take(15)[0] == cmd[0]);
    }
}

/// A one-line INFRA source that is a `BG = ...` command holding two `%`
/// compiles to a script that sets both background colours to the trimmed
/// text between the first two `%`, as a JavaScript string, and does
/// nothing else.
pub proof fn lemma_background_command(source: Seq<char>, a: Seq<char>, c: Seq<char>, b: Seq<char>)
    requires
        source == "BG ="@ + a + "%"@ + c + "%"@ + b,
        trim_spec(source) == source,
        !has_char(source, '\n'),
        !crate::text::seq_contains(source, "//"@),
        !has_char(a, '%'),
        !has_char(c, '%'),
    ensures
        lower_infra_spec(source) == Ok::<Seq<char>, Seq<char>>(
            INFRA_HEADER@ + INFRA_STRICT@ + ("document.documentElement.style.backgroundColor="@ + js_string_spec(
                trim_spec(c),
            ) + ";document.body.style.backgroundColor="@ + js_string_spec(trim_spec(c)) + ";\n"@) + infra_beep()
                + INFRA_FOOTER@,
        ),
{
    reveal(infra_command_spec);
    reveal_strlit("BG =");
    reveal_strlit("SAY ");
    reveal_strlit("%");
    let init = infra_initial_state();
    assert(source[0] == 'B');
    lemma_single_command(source);
    lemma_not_earlier_commands(source);
    assert(!crate::text::starts_with(source, "SAY "@)) by {
        if crate::text::starts_with(source, "SAY "@) {
            assert(source.take(4)[0] == source[0]);
        }
    }
    assert(crate::text::starts_with(source, "BG ="@)) by {
        assert(source.take(4) =~= "BG ="@);
    }
    assert("%"@ =~= seq!['%']);
    assert(source.skip(4) =~= a + seq!['%'] + c + seq!['%'] + b);
    lemma_between_chars(a, c, b, '%', '%');
    assert(infra_command_spec(init, source) == Ok::<InfraState, Seq<char>>(
        with_js(
            init,
            "document.documentElement.style.backgroundColor="@ + js_string_spec(trim_spec(c))
                + ";document.body.style.backgroundColor="@ + js_string_spec(trim_spec(c)) + ";\n"@,
        ),
    ));
}

/// A one-line INFRA source `SAY ... (text) ...` compiles to a script that
/// logs the trimmed text between the first `(` and the next `)`, as a
/// JavaScript string, and does nothing else.
pub proof fn lemma_say_command(source: Seq<char>, a: Seq<char>, c: Seq<char>, b: Seq<char>)
    requires
        source == "SAY "@ + a + "("@ + c + ")"@ + b,
        trim_spec(source) == source,
        !has_char(source, '\n'),
        !crate::text::seq_contains(source, "//"@),
        !has_char(a, '('),
        !has_char(c, ')'),
    ensures
        lower_infra_spec(source) == Ok::<Seq<char>, Seq<char>>(
            INFRA_HEADER@ + INFRA_STRICT@ + ("console.log("@ + js_string_spec(trim_spec(c)) + ");\n"@) + infra_beep()
                + INFRA_FOOTER@,
        ),
{
    reveal(infra_command_spec);
    reveal_strlit("SAY ");
    reveal_strlit("(");
    reveal_strlit(")");
    let init = infra_initial_state();
    assert(source[0] == 'S');
    lemma_single_command(source);
    lemma_not_earlier_commands(source);
    assert(crate::text::starts_with(source, "SAY "@)) by {
        assert(source.take(4) =~= "SAY "@);
    }
    assert("("@ =~= seq!['('] && ")"@ =~= seq![')']);
    assert(source.skip(4) =~= a + seq!['('] + c + seq![')'] + b);
    lemma_between_chars(a, c, b, '(', ')');
    assert(infra_command_spec(init, source) == Ok::<InfraState, Seq<char>>(
        with_js(init, "console.log("@ + js_string_spec(trim_spec(c)) + ");\n"@),
    ));
}

/// A source that starts with a `PACK` command is refused: `PACK` would run
/// an external compiler.
pub proof fn lemma_pack_refused(source: Seq<char>)
    requires
        crate::text::starts_with(source, "PACK"@),
        trim_spec(source) == source,
        !has_char(source, '\n'),
        !crate::text::seq_contains(source, "//"@),
    ensures
        lower_infra_spec(source) == Err::<Seq<char>, Seq<char>>(PACK_DISABLED_ERROR@),
{
    reveal(infra_command_spec);
    reveal_strlit("PACK");
    reveal_strlit("end");
    reveal_strlit("getlib ");
    assert(source.take(4)[0] == 'P');
    assert(source[0] == 'P');
    lemma_single_command(source);
    assert(source != "end"@) by {
        if source == "end"@ {
            assert(source[0] == 'e');
        }
    }
    assert(!crate::text::starts_with(source, "getlib "@)) by {
        if crate::text::starts_with(source, "getlib "@) {
            assert(source.take(7)[0] == source[0]);
        }
    }
}

} // verus!
