//! Character-level helpers shared by the scanner, the language front end
//! and the download-name rules.

use vstd::prelude::*;
use vstd::slice::slice_subrange;

verus! {

/// The Unicode `White_Space` property, the set that `char::is_whitespace`
/// tests.
pub open spec fn is_whitespace_spec(c: char) -> bool {
    ||| ('\u{9}' <= c && c <= '\u{d}')
    ||| c == ' '
    ||| c == '\u{85}'
    ||| c == '\u{a0}'
    ||| c == '\u{1680}'
    ||| ('\u{2000}' <= c && c <= '\u{200a}')
    ||| c == '\u{2028}'
    ||| c == '\u{2029}'
    ||| c == '\u{202f}'
    ||| c == '\u{205f}'
    ||| c == '\u{3000}'
}

pub fn is_whitespace(c: char) -> (r: bool)
    ensures
        r == is_whitespace_spec(c),
{
    ('\u{9}' <= c && c <= '\u{d}') || c == ' ' || c == '\u{85}' || c == '\u{a0}' || c
        == '\u{1680}' || ('\u{2000}' <= c && c <= '\u{200a}') || c == '\u{2028}' || c
        == '\u{2029}' || c == '\u{202f}' || c == '\u{205f}' || c == '\u{3000}'
}

/// The characters of `s`, in order.
pub fn chars_of(s: &str) -> (r: Vec<char>)
    ensures
        r@ == s@,
{
    let mut out: Vec<char> = Vec::new();
    for c in iter: s.chars()
        invariant
            out@ == iter.seq().take(iter.index()),
    {
        out.push(c);
    }
    out
}

/// The Unicode lowercase mapping of `c`, as `char::to_lowercase` yields it.
pub uninterp spec fn char_lowercase(c: char) -> Seq<char>;

/// Calls `char::to_lowercase`. The result is named [`char_lowercase`]; of the
/// Unicode mapping the contract states only its ASCII part, which the
/// documentation fixes: `A`..=`Z` become `a`..=`z` and every other ASCII
/// character maps to itself. Non-ASCII characters are left to the name.
#[verifier::external_body]
pub(crate) fn to_lowercase(c: char) -> (r: Vec<char>)
    ensures
        r@ == char_lowercase(c),
        ('A' <= c && c <= 'Z') ==> r@ == seq![((c as u32) + 32) as char],
        ((c as u32) < 128 && !('A' <= c && c <= 'Z')) ==> r@ == seq![c],
{
    c.to_lowercase().collect()
}

/// `needle` occurs in `hay` starting at index `i`.
pub open spec fn matches_at(hay: Seq<char>, needle: Seq<char>, i: int) -> bool {
    &&& 0 <= i
    &&& i + needle.len() <= hay.len()
    &&& forall|j: int| 0 <= j < needle.len() ==> hay[i + j] == needle[j]
}

/// `needle` occurs somewhere in `hay` (the empty needle always does).
pub open spec fn seq_contains(hay: Seq<char>, needle: Seq<char>) -> bool {
    exists|i: int| #[trigger] matches_at(hay, needle, i)
}

pub fn contains_chars(hay: &[char], needle: &[char]) -> (r: bool)
    ensures
        r == seq_contains(hay@, needle@),
{
    let n = hay.len();
    let m = needle.len();
    if m > n {
        assert(forall|i: int| !#[trigger] matches_at(hay@, needle@, i));
        return false;
    }
    let mut i: usize = 0;
    while i <= n - m
        invariant
            n == hay@.len(),
            m == needle@.len(),
            m <= n,
            i <= n - m + 1,
            forall|k: int| 0 <= k < i ==> !#[trigger] matches_at(hay@, needle@, k),
        decreases n - m + 1 - i,
    {
        let mut j: usize = 0;
        let mut ok = true;
        while j < m
            invariant
                n == hay@.len(),
                m == needle@.len(),
                i + m <= n,
                j <= m,
                ok ==> forall|t: int| 0 <= t < j ==> hay@[i + t] == needle@[t],
                !ok ==> !matches_at(hay@, needle@, i as int),
            decreases m - j,
        {
            if hay[i + j] != needle[j] {
                ok = false;
            }
            j = j + 1;
        }
        if ok {
            assert(matches_at(hay@, needle@, i as int));
            return true;
        }
        i = i + 1;
    }
    assert forall|k: int| !#[trigger] matches_at(hay@, needle@, k) by {
        if 0 <= k && k + m <= n {
            assert(k < i);
        }
    }
    false
}

/// Whether the text of `needle` occurs in `hay`.
pub fn contains_str(hay: &[char], needle: &str) -> (r: bool)
    ensures
        r == seq_contains(hay@, needle@),
{
    let needle_chars = chars_of(needle);
    contains_chars(hay, needle_chars.as_slice())
}

/// Append the characters of `s` to `out`.
pub fn push_chars(out: &mut Vec<char>, s: &[char])
    ensures
        final(out)@ == old(out)@ + s@,
{
    let ghost start = out@;
    let mut i: usize = 0;
    while i < s.len()
        invariant
            i <= s@.len(),
            out@ == start + s@.take(i as int),
        decreases s@.len() - i,
    {
        out.push(s[i]);
        assert(s@.take(i + 1) =~= s@.take(i as int).push(s@[i as int]));
        i = i + 1;
    }
    assert(s@.take(s@.len() as int) =~= s@);
}

/// Append the text of `s` to `out`.
pub fn push_str(out: &mut Vec<char>, s: &str)
    ensures
        final(out)@ == old(out)@ + s@,
{
    let chars = chars_of(s);
    push_chars(out, chars.as_slice());
}

/// A fresh vector holding the characters of `s`.
pub fn to_vec(s: &[char]) -> (r: Vec<char>)
    ensures
        r@ == s@,
{
    let mut out: Vec<char> = Vec::new();
    push_chars(&mut out, s);
    out
}

/// Calls `String::from_iter` on the characters: the string whose characters
/// are exactly `chars`.
#[verifier::external_body]
pub(crate) fn string_from_chars(chars: &[char]) -> (r: String)
    ensures
        r@ == chars@,
{
    chars.iter().collect()
}

pub open spec fn is_ascii_upper(c: char) -> bool {
    'A' <= c && c <= 'Z'
}

pub open spec fn is_ascii_lower(c: char) -> bool {
    'a' <= c && c <= 'z'
}

pub open spec fn is_ascii_digit(c: char) -> bool {
    '0' <= c && c <= '9'
}

pub open spec fn ascii_lower_char(c: char) -> char {
    if is_ascii_upper(c) { ((c as u32) + 32) as char } else { c }
}

pub open spec fn ascii_upper_char(c: char) -> char {
    if is_ascii_lower(c) { ((c as u32) - 32) as char } else { c }
}

/// `str::to_ascii_lowercase`: ASCII letters lowered, everything else kept.
pub open spec fn ascii_lower(s: Seq<char>) -> Seq<char> {
    s.map_values(|c: char| ascii_lower_char(c))
}

/// `str::to_ascii_uppercase`: ASCII letters raised, everything else kept.
pub open spec fn ascii_upper(s: Seq<char>) -> Seq<char> {
    s.map_values(|c: char| ascii_upper_char(c))
}

pub fn to_ascii_lower_char(c: char) -> (r: char)
    ensures
        r == ascii_lower_char(c),
{
    if 'A' <= c && c <= 'Z' {
        let v: u8 = c as u8;
        (v + 32) as char
    } else {
        c
    }
}

pub fn to_ascii_upper_char(c: char) -> (r: char)
    ensures
        r == ascii_upper_char(c),
{
    if 'a' <= c && c <= 'z' {
        let v: u8 = c as u8;
        (v - 32) as char
    } else {
        c
    }
}

/// `str::to_ascii_lowercase` on a character sequence.
pub fn to_ascii_lowercase(s: &[char]) -> (r: Vec<char>)
    ensures
        r@ == ascii_lower(s@),
{
    let mut out: Vec<char> = Vec::new();
    let mut i: usize = 0;
    while i < s.len()
        invariant
            i <= s@.len(),
            out@ =~= ascii_lower(s@.take(i as int)),
        decreases s@.len() - i,
    {
        let c = to_ascii_lower_char(s[i]);
        out.push(c);
        i = i + 1;
    }
    assert(s@.take(s@.len() as int) =~= s@);
    out
}

/// `str::to_ascii_uppercase` on a character sequence.
pub fn to_ascii_uppercase(s: &[char]) -> (r: Vec<char>)
    ensures
        r@ == ascii_upper(s@),
{
    let mut out: Vec<char> = Vec::new();
    let mut i: usize = 0;
    while i < s.len()
        invariant
            i <= s@.len(),
            out@ =~= ascii_upper(s@.take(i as int)),
        decreases s@.len() - i,
    {
        let c = to_ascii_upper_char(s[i]);
        out.push(c);
        i = i + 1;
    }
    assert(s@.take(s@.len() as int) =~= s@);
    out
}

/// Two sequences are equal as sequences.
pub fn chars_eq(a: &[char], b: &[char]) -> (r: bool)
    ensures
        r == (a@ == b@),
{
    if a.len() != b.len() {
        return false;
    }
    let mut i: usize = 0;
    while i < a.len()
        invariant
            a@.len() == b@.len(),
            i <= a@.len(),
            forall|j: int| 0 <= j < i ==> a@[j] == b@[j],
        decreases a@.len() - i,
    {
        if a[i] != b[i] {
            return false;
        }
        i = i + 1;
    }
    assert(a@ =~= b@);
    true
}

/// Equality of `a` with the text of `b`.
pub fn eq_str(a: &[char], b: &str) -> (r: bool)
    ensures
        r == (a@ == b@),
{
    let bc = chars_of(b);
    chars_eq(a, bc.as_slice())
}

/// `s` begins with `p`.
pub open spec fn starts_with(s: Seq<char>, p: Seq<char>) -> bool {
    p.len() <= s.len() && s.take(p.len() as int) == p
}

/// `s` ends with `p`.
pub open spec fn ends_with(s: Seq<char>, p: Seq<char>) -> bool {
    p.len() <= s.len() && s.skip(s.len() - p.len()) == p
}

pub fn starts_with_chars(s: &[char], p: &[char]) -> (r: bool)
    ensures
        r == starts_with(s@, p@),
{
    if p.len() > s.len() {
        return false;
    }
    let head = slice_subrange(s, 0, p.len());
    let r = chars_eq(head, p);
    assert(head@ =~= s@.take(p@.len() as int));
    r
}

pub fn starts_with_str(s: &[char], p: &str) -> (r: bool)
    ensures
        r == starts_with(s@, p@),
{
    let pc = chars_of(p);
    starts_with_chars(s, pc.as_slice())
}

/// `str::strip_prefix`: the rest of `s` after `p`, if `s` starts with `p`.
pub open spec fn strip_prefix_spec(s: Seq<char>, p: Seq<char>) -> Option<Seq<char>> {
    if starts_with(s, p) { Some(s.skip(p.len() as int)) } else { None }
}

pub fn strip_prefix_str(s: &[char], p: &str) -> (r: Option<Vec<char>>)
    ensures
        r matches Some(v) ==> strip_prefix_spec(s@, p@) == Some(v@),
        r is None ==> strip_prefix_spec(s@, p@) is None,
{
    let pc = chars_of(p);
    if starts_with_chars(s, pc.as_slice()) {
        let rest = slice_subrange(s, pc.len(), s.len());
        Some(to_vec(rest))
    } else {
        None
    }
}

/// `s` contains the character `c`.
pub open spec fn has_char(s: Seq<char>, c: char) -> bool {
    exists|i: int| 0 <= i < s.len() && s[i] == c
}

pub fn contains_char(s: &[char], c: char) -> (r: bool)
    ensures
        r == has_char(s@, c),
{
    let mut i: usize = 0;
    while i < s.len()
        invariant
            i <= s@.len(),
            forall|j: int| 0 <= j < i ==> s@[j] != c,
        decreases s@.len() - i,
    {
        if s[i] == c {
            return true;
        }
        i = i + 1;
    }
    false
}

/// Number of occurrences of the character `c` in `s`.
pub open spec fn count_char(s: Seq<char>, c: char) -> nat
    decreases s.len(),
{
    if s.len() == 0 {
        0
    } else {
        count_char(s.drop_last(), c) + if s.last() == c { 1nat } else { 0nat }
    }
}

pub fn count_chars(s: &[char], c: char) -> (r: usize)
    ensures
        r == count_char(s@, c),
{
    let mut n: usize = 0;
    let mut i: usize = 0;
    while i < s.len()
        invariant
            i <= s@.len(),
            n == count_char(s@.take(i as int), c),
            n <= i,
        decreases s@.len() - i,
    {
        assert(s@.take(i + 1).drop_last() =~= s@.take(i as int));
        if s[i] == c {
            n = n + 1;
        }
        i = i + 1;
    }
    assert(s@.take(s@.len() as int) =~= s@);
    n
}

/// Leading whitespace removed (`str::trim_start`).
pub open spec fn trim_start_spec(s: Seq<char>) -> Seq<char>
    decreases s.len(),
{
    if s.len() > 0 && is_whitespace_spec(s[0]) {
        trim_start_spec(s.drop_first())
    } else {
        s
    }
}

/// Trailing whitespace removed (`str::trim_end`).
pub open spec fn trim_end_spec(s: Seq<char>) -> Seq<char>
    decreases s.len(),
{
    if s.len() > 0 && is_whitespace_spec(s.last()) {
        trim_end_spec(s.drop_last())
    } else {
        s
    }
}

/// Whitespace removed at both ends (`str::trim`).
pub open spec fn trim_spec(s: Seq<char>) -> Seq<char> {
    trim_end_spec(trim_start_spec(s))
}

proof fn lemma_trim_start_skip(s: Seq<char>, k: int)
    requires
        0 <= k <= s.len(),
        forall|j: int| 0 <= j < k ==> is_whitespace_spec(s[j]),
    ensures
        trim_start_spec(s) == trim_start_spec(s.skip(k)),
    decreases k,
{
    if k > 0 {
        assert(s.drop_first().skip(k - 1) =~= s.skip(k));
        lemma_trim_start_skip(s.drop_first(), k - 1);
    } else {
        assert(s.skip(0) =~= s);
    }
}

proof fn lemma_trim_end_take(s: Seq<char>, k: int)
    requires
        0 <= k <= s.len(),
        forall|j: int| k <= j < s.len() ==> is_whitespace_spec(s[j]),
    ensures
        trim_end_spec(s) == trim_end_spec(s.take(k)),
    decreases s.len() - k,
{
    if k < s.len() {
        assert(s.drop_last().take(k) =~= s.take(k));
        lemma_trim_end_take(s.drop_last(), k);
    } else {
        assert(s.take(k) =~= s);
    }
}

pub fn trim_start(s: &[char]) -> (r: &[char])
    ensures
        r@ == trim_start_spec(s@),
{
    let mut i: usize = 0;
    while i < s.len() && is_whitespace(s[i])
        invariant
            i <= s@.len(),
            forall|j: int| 0 <= j < i ==> is_whitespace_spec(s@[j]),
        decreases s@.len() - i,
    {
        i = i + 1;
    }
    proof {
        lemma_trim_start_skip(s@, i as int);
        assert(s@.skip(i as int).subrange(0, 0) =~= Seq::<char>::empty());
    }
    slice_subrange(s, i, s.len())
}

pub fn trim_end(s: &[char]) -> (r: &[char])
    ensures
        r@ == trim_end_spec(s@),
{
    let mut k: usize = s.len();
    while k > 0 && is_whitespace(s[k - 1])
        invariant
            k <= s@.len(),
            forall|j: int| k <= j < s@.len() ==> is_whitespace_spec(s@[j]),
        decreases k,
    {
        k = k - 1;
    }
    proof {
        lemma_trim_end_take(s@, k as int);
    }
    slice_subrange(s, 0, k)
}

pub fn trim(s: &[char]) -> (r: &[char])
    ensures
        r@ == trim_spec(s@),
{
    trim_end(trim_start(s))
}

/// The first index at or after `i` where `p` occurs in `s`.
pub open spec fn find_from(s: Seq<char>, p: Seq<char>, i: int) -> Option<int>
    decreases s.len() - i,
{
    if i < 0 || i + p.len() > s.len() {
        None
    } else if matches_at(s, p, i) {
        Some(i)
    } else {
        find_from(s, p, i + 1)
    }
}

/// The first index where `p` occurs in `s`.
pub open spec fn find_spec(s: Seq<char>, p: Seq<char>) -> Option<int> {
    find_from(s, p, 0)
}

pub proof fn lemma_find_some(s: Seq<char>, p: Seq<char>, i: int, k: int)
    requires
        find_from(s, p, i) == Some(k),
    ensures
        i <= k,
        k + p.len() <= s.len(),
        matches_at(s, p, k),
        forall|j: int| i <= j < k ==> !#[trigger] matches_at(s, p, j),
    decreases s.len() - i,
{
    if i < 0 || i + p.len() > s.len() {
    } else if matches_at(s, p, i) {
    } else {
        lemma_find_some(s, p, i + 1, k);
    }
}

pub proof fn lemma_find_none(s: Seq<char>, p: Seq<char>, i: int)
    requires
        find_from(s, p, i) is None,
        0 <= i,
    ensures
        forall|j: int| i <= j ==> !#[trigger] matches_at(s, p, j),
    decreases s.len() - i,
{
    if i + p.len() > s.len() {
    } else {
        lemma_find_none(s, p, i + 1);
    }
}

/// The characters of each vector, in order.
pub open spec fn views(v: Seq<Vec<char>>) -> Seq<Seq<char>> {
    v.map_values(|x: Vec<char>| x@)
}

/// `str::find` from position `start`.
pub fn find_chars(s: &[char], p: &[char], start: usize) -> (r: Option<usize>)
    requires
        start <= s@.len(),
    ensures
        r matches Some(k) ==> find_from(s@, p@, start as int) == Some(k as int),
        r is None ==> find_from(s@, p@, start as int) is None,
{
    let n = s.len();
    let m = p.len();
    if m > n {
        return None;
    }
    let mut i: usize = start;
    while i <= n - m
        invariant
            n == s@.len(),
            m == p@.len(),
            m <= n,
            start <= i,
            find_from(s@, p@, start as int) == find_from(s@, p@, i as int),
        decreases n - m + 1 - i,
    {
        let mut j: usize = 0;
        let mut ok = true;
        while j < m
            invariant
                n == s@.len(),
                m == p@.len(),
                i + m <= n,
                j <= m,
                ok ==> forall|t: int| 0 <= t < j ==> s@[i + t] == p@[t],
                !ok ==> !matches_at(s@, p@, i as int),
            decreases m - j,
        {
            if s[i + j] != p[j] {
                ok = false;
            }
            j = j + 1;
        }
        if ok {
            assert(matches_at(s@, p@, i as int));
            return Some(i);
        }
        i = i + 1;
    }
    None
}

/// `str::split_once`: the text before and after the first occurrence of `p`.
pub open spec fn split_once_spec(s: Seq<char>, p: Seq<char>) -> Option<(Seq<char>, Seq<char>)> {
    match find_spec(s, p) {
        Some(k) => Some((s.take(k), s.skip(k + p.len()))),
        None => None,
    }
}

pub fn split_once_chars(s: &[char], p: &[char]) -> (r: Option<(Vec<char>, Vec<char>)>)
    ensures
        r matches Some(v) ==> split_once_spec(s@, p@) == Some((v.0@, v.1@)),
        r is None ==> split_once_spec(s@, p@) is None,
{
    match find_chars(s, p, 0) {
        Some(k) => {
            proof {
                lemma_find_some(s@, p@, 0, k as int);
                assert(k + p.len() <= s.len());
            }
            let before = to_vec(slice_subrange(s, 0, k));
            let end = k + p.len();
            let after = to_vec(slice_subrange(s, end, s.len()));
            assert(before@ =~= s@.take(k as int));
            assert(after@ =~= s@.skip(k + p@.len()));
            Some((before, after))
        },
        None => None,
    }
}

pub fn split_once_str(s: &[char], p: &str) -> (r: Option<(Vec<char>, Vec<char>)>)
    ensures
        r matches Some(v) ==> split_once_spec(s@, p@) == Some((v.0@, v.1@)),
        r is None ==> split_once_spec(s@, p@) is None,
{
    let pc = chars_of(p);
    split_once_chars(s, pc.as_slice())
}

/// `str::split` with a non-empty pattern: the pieces of `s[i..]` between
/// occurrences of `p`.
pub open spec fn split_from(s: Seq<char>, p: Seq<char>, i: int) -> Seq<Seq<char>>
    decreases s.len() - i,
{
    if p.len() == 0 || i < 0 || i > s.len() {
        seq![s.subrange(i, s.len() as int)]
    } else {
        match find_from(s, p, i) {
            Some(k) => {
                if k < i || k + p.len() > s.len() {
                    seq![s.subrange(i, s.len() as int)]
                } else {
                    seq![s.subrange(i, k)] + split_from(s, p, k + p.len())
                }
            },
            None => seq![s.subrange(i, s.len() as int)],
        }
    }
}

pub open spec fn split_spec(s: Seq<char>, p: Seq<char>) -> Seq<Seq<char>> {
    split_from(s, p, 0)
}

pub fn split_chars(s: &[char], p: &[char]) -> (r: Vec<Vec<char>>)
    requires
        p@.len() > 0,
    ensures
        views(r@) == split_spec(s@, p@),
{
    let mut out: Vec<Vec<char>> = Vec::new();
    let mut pos: usize = 0;
    loop
        invariant
            p@.len() > 0,
            pos <= s@.len(),
            views(out@) + split_from(s@, p@, pos as int) == split_spec(s@, p@),
        decreases s@.len() - pos,
    {
        match find_chars(s, p, pos) {
            Some(k) => {
                proof {
                    lemma_find_some(s@, p@, pos as int, k as int);
                    assert(k + p.len() <= s.len());
                }
                let piece = to_vec(slice_subrange(s, pos, k));
                let ghost before = views(out@);
                out.push(piece);
                assert(views(out@) =~= before.push(piece@));
                assert(views(out@) + split_from(s@, p@, (k + p@.len()) as int) =~= before
                    + split_from(s@, p@, pos as int));
                pos = k + p.len();
            },
            None => {
                let piece = to_vec(slice_subrange(s, pos, s.len()));
                let ghost before = views(out@);
                out.push(piece);
                assert(views(out@) =~= before.push(piece@));
                assert(views(out@) =~= before + split_from(s@, p@, pos as int));
                return out;
            },
        }
    }
}

pub fn split_str(s: &[char], p: &str) -> (r: Vec<Vec<char>>)
    requires
        p@.len() > 0,
    ensures
        views(r@) == split_spec(s@, p@),
{
    let pc = chars_of(p);
    split_chars(s, pc.as_slice())
}

/// `str::replace` with a non-empty pattern: every non-overlapping occurrence
/// of `p` in `s[i..]`, leftmost first, replaced by `r`.
pub open spec fn replace_from(s: Seq<char>, p: Seq<char>, r: Seq<char>, i: int) -> Seq<char>
    decreases s.len() - i,
{
    if p.len() == 0 || i < 0 || i > s.len() {
        s.subrange(i, s.len() as int)
    } else {
        match find_from(s, p, i) {
            Some(k) => {
                if k < i || k + p.len() > s.len() {
                    s.subrange(i, s.len() as int)
                } else {
                    s.subrange(i, k) + r + replace_from(s, p, r, k + p.len())
                }
            },
            None => s.subrange(i, s.len() as int),
        }
    }
}

pub open spec fn replace_spec(s: Seq<char>, p: Seq<char>, r: Seq<char>) -> Seq<char> {
    replace_from(s, p, r, 0)
}

pub fn replace_chars(s: &[char], p: &[char], rep: &[char]) -> (r: Vec<char>)
    requires
        p@.len() > 0,
    ensures
        r@ == replace_spec(s@, p@, rep@),
{
    let mut out: Vec<char> = Vec::new();
    let mut pos: usize = 0;
    loop
        invariant
            p@.len() > 0,
            pos <= s@.len(),
            out@ + replace_from(s@, p@, rep@, pos as int) == replace_spec(s@, p@, rep@),
        decreases s@.len() - pos,
    {
        match find_chars(s, p, pos) {
            Some(k) => {
                proof {
                    lemma_find_some(s@, p@, pos as int, k as int);
                    assert(k + p.len() <= s.len());
                }
                let ghost before = out@;
                push_chars(&mut out, slice_subrange(s, pos, k));
                push_chars(&mut out, rep);
                assert(out@ + replace_from(s@, p@, rep@, (k + p@.len()) as int) =~= before
                    + replace_from(s@, p@, rep@, pos as int));
                pos = k + p.len();
            },
            None => {
                let ghost before = out@;
                push_chars(&mut out, slice_subrange(s, pos, s.len()));
                assert(out@ =~= before + replace_from(s@, p@, rep@, pos as int));
                return out;
            },
        }
    }
}

pub fn replace_str(s: &[char], p: &str, rep: &str) -> (r: Vec<char>)
    requires
        p@.len() > 0,
    ensures
        r@ == replace_spec(s@, p@, rep@),
{
    let pc = chars_of(p);
    let rc = chars_of(rep);
    replace_chars(s, pc.as_slice(), rc.as_slice())
}

/// A piece with one `\r` dropped from its end, if it ends with one.
pub open spec fn strip_cr(seg: Seq<char>) -> Seq<char> {
    if seg.len() > 0 && seg.last() == '\r' {
        seg.drop_last()
    } else {
        seg
    }
}

/// `str::lines`: the pieces between `\n` terminators, a `\r` before a `\n`
/// dropped, and no final empty line after a trailing terminator.
pub open spec fn lines_spec(s: Seq<char>) -> Seq<Seq<char>> {
    let parts = split_spec(s, seq!['\n']);
    let kept = if parts.len() > 0 && parts.last().len() == 0 {
        parts.drop_last()
    } else {
        parts
    };
    Seq::new(kept.len(), |i: int| if i + 1 < parts.len() { strip_cr(kept[i]) } else { kept[i] })
}

pub fn lines(s: &[char]) -> (r: Vec<Vec<char>>)
    ensures
        views(r@) == lines_spec(s@),
{
    let sep: Vec<char> = vec!['\n'];
    assert(sep@ =~= seq!['\n']);
    let parts = split_chars(s, sep.as_slice());
    let total = parts.len();
    let mut kept = total;
    if total > 0 && parts[total - 1].len() == 0 {
        kept = total - 1;
    }
    let mut out: Vec<Vec<char>> = Vec::new();
    let mut i: usize = 0;
    while i < kept
        invariant
            views(parts@) == split_spec(s@, seq!['\n']),
            total == parts@.len(),
            kept <= total,
            kept == if total > 0 && parts@[total - 1]@.len() == 0 { total - 1 } else { total as int },
            i <= kept,
            views(out@) =~= lines_spec(s@).take(i as int),
            lines_spec(s@).len() == kept,
        decreases kept - i,
    {
        let part = &parts[i];
        let n = part.len();
        let line = if i + 1 < total && n > 0 && part[n - 1] == '\r' {
            to_vec(slice_subrange(part.as_slice(), 0, n - 1))
        } else {
            to_vec(part.as_slice())
        };
        assert(line@ =~= lines_spec(s@)[i as int]);
        let ghost before = out@;
        out.push(line);
        assert(views(out@) =~= views(before).push(line@));
        assert(lines_spec(s@).take(i + 1) =~= lines_spec(s@).take(i as int).push(line@));
        i = i + 1;
    }
    assert(lines_spec(s@).take(kept as int) =~= lines_spec(s@));
    out
}

/// `usize::saturating_add`.
pub open spec fn sat_add(a: usize, b: usize) -> usize {
    if a + b > usize::MAX { usize::MAX } else { (a + b) as usize }
}

/// `usize::saturating_sub`.
pub open spec fn sat_sub(a: usize, b: usize) -> usize {
    if a >= b { (a - b) as usize } else { 0 }
}

/// Whether `char::is_alphanumeric` holds: the Unicode `Alphabetic` or
/// `Numeric` property.
pub uninterp spec fn char_alphanumeric(c: char) -> bool;

/// Calls `char::is_alphanumeric`. The result is named [`char_alphanumeric`];
/// the contract states its ASCII part as documented: among ASCII characters
/// exactly the letters and digits are alphanumeric.
#[verifier::external_body]
pub(crate) fn is_alphanumeric(c: char) -> (r: bool)
    ensures
        r == char_alphanumeric(c),
        (c as u32) < 128 ==> r == (is_ascii_upper(c) || is_ascii_lower(c) || is_ascii_digit(c)),
{
    c.is_alphanumeric()
}

pub open spec fn is_ascii_alphanumeric(c: char) -> bool {
    is_ascii_upper(c) || is_ascii_lower(c) || is_ascii_digit(c)
}

/// The general category `Cc` (control characters), the set that
/// `char::is_control` tests.
pub open spec fn is_control_spec(c: char) -> bool {
    (c as u32) <= 0x1f || (0x7f <= (c as u32) && (c as u32) <= 0x9f)
}

pub fn is_control(c: char) -> (r: bool)
    ensures
        r == is_control_spec(c),
{
    let v = c as u32;
    v <= 0x1f || (0x7f <= v && v <= 0x9f)
}

/// The first `c` at or after `i` is found where it stands.
pub proof fn lemma_find_first_char(s: Seq<char>, c: char, i: int, k: int)
    requires
        0 <= i <= k < s.len(),
        s[k] == c,
        forall|j: int| i <= j < k ==> s[j] != c,
    ensures
        find_from(s, seq![c], i) == Some(k),
    decreases k - i,
{
    if i < k {
        assert(!matches_at(s, seq![c], i)) by {
            if matches_at(s, seq![c], i) {
                assert(s[i + 0] == seq![c][0]);
            }
        }
        lemma_find_first_char(s, c, i + 1, k);
    } else {
        assert(matches_at(s, seq![c], i));
    }
}

/// A pattern that does not occur is found nowhere.
pub proof fn lemma_find_absent_from(s: Seq<char>, p: Seq<char>, i: int)
    requires
        !seq_contains(s, p),
    ensures
        find_from(s, p, i) is None,
    decreases s.len() - i,
{
    if i < 0 || i + p.len() > s.len() {
    } else {
        assert(!matches_at(s, p, i));
        lemma_find_absent_from(s, p, i + 1);
    }
}

/// A text without the separator splits into itself alone.
pub proof fn lemma_split_absent(s: Seq<char>, p: Seq<char>)
    requires
        p.len() > 0,
        !seq_contains(s, p),
    ensures
        split_spec(s, p) == seq![s],
{
    lemma_find_absent_from(s, p, 0);
    assert(s.subrange(0, s.len() as int) =~= s);
}

/// A non-empty text without a line feed is its own only line.
pub proof fn lemma_lines_single(line: Seq<char>)
    requires
        line.len() > 0,
        !has_char(line, '\n'),
    ensures
        lines_spec(line) == seq![line],
{
    assert(!seq_contains(line, seq!['\n'])) by {
        if seq_contains(line, seq!['\n']) {
            let i = choose|i: int| #[trigger] matches_at(line, seq!['\n'], i);
            assert(line[i + 0] == seq!['\n'][0]);
            assert(line[i] == '\n');
        }
    }
    lemma_split_absent(line, seq!['\n']);
    assert(lines_spec(line) =~= seq![line]);
}

} // verus!
