//! Download bookkeeping: safe file names, `Content-Disposition` file names,
//! the status of each download and what the transfer loop decides. The
//! network transfer, the files and the listeners are driven around it.

use vstd::prelude::*;
use vstd::slice::slice_subrange;
use url::Url;
use crate::numbers::{lemma_decimal_injective, nat_decimal, push_u64};
use crate::text::{
    ascii_lower, ascii_upper, chars_eq, chars_of, has_char, is_ascii_upper, is_control, is_control_spec,
    push_chars, push_str, split_once_chars, split_once_spec, split_spec, string_from_chars,
    to_ascii_lowercase, to_ascii_uppercase, to_vec, trim, trim_end_spec, trim_spec, trim_start_spec,
    views, is_whitespace_spec,
};

verus! {

#[verifier::external_type_specification]
#[verifier::external_body]
pub struct ExUrl(Url);

#[derive(Clone, Copy, Debug, PartialEq, Eq, Structural)]
pub enum DownloadStatus {
    Queued,
    Downloading,
    Paused,
    Completed,
    Cancelled,
    Failed,
}

/// Characters that a file name may not hold on common file systems.
pub open spec fn is_forbidden_name_char(c: char) -> bool {
    c == '<' || c == '>' || c == ':' || c == '"' || c == '/' || c == '\\' || c == '|' || c == '?'
        || c == '*'
}

pub open spec fn sanitize_char(c: char) -> char {
    if is_control_spec(c) || is_forbidden_name_char(c) {
        '_'
    } else {
        c
    }
}

/// Trailing `.` removed (`str::trim_end_matches('.')`).
pub open spec fn trim_end_dots(s: Seq<char>) -> Seq<char>
    decreases s.len(),
{
    if s.len() > 0 && s.last() == '.' {
        trim_end_dots(s.drop_last())
    } else {
        s
    }
}

/// A Windows device name, compared in upper case.
pub open spec fn is_reserved_device_name(u: Seq<char>) -> bool {
    ||| u == "CON"@ || u == "PRN"@ || u == "AUX"@ || u == "NUL"@
    ||| u == "COM1"@ || u == "COM2"@ || u == "COM3"@ || u == "COM4"@ || u == "COM5"@
    ||| u == "COM6"@ || u == "COM7"@ || u == "COM8"@ || u == "COM9"@
    ||| u == "LPT1"@ || u == "LPT2"@ || u == "LPT3"@ || u == "LPT4"@ || u == "LPT5"@
    ||| u == "LPT6"@ || u == "LPT7"@ || u == "LPT8"@ || u == "LPT9"@
}

/// Longest file name kept, in characters.
pub const MAX_FILENAME_CHARS: usize = 240;

pub const DEFAULT_FILENAME: &'static str = "download";

/// The safe form of a file name: control and forbidden characters become
/// `_`, surrounding whitespace and trailing dots go, a device name gets a
/// `_` prefix, an empty result becomes `download`, and at most 240
/// characters are kept.
pub open spec fn sanitize_spec(input: Seq<char>) -> Seq<char> {
    let t = trim_end_dots(trim_spec(input.map_values(|c: char| sanitize_char(c))));
    let o = if is_reserved_device_name(ascii_upper(t)) {
        seq!['_'] + t
    } else {
        t
    };
    if o.len() == 0 {
        DEFAULT_FILENAME@
    } else if o.len() > MAX_FILENAME_CHARS {
        o.take(MAX_FILENAME_CHARS as int)
    } else {
        o
    }
}

/// A sanitized name is never empty.
pub proof fn lemma_sanitize_nonempty(input: Seq<char>)
    ensures
        sanitize_spec(input).len() > 0,
{
    reveal_strlit("download");
}

fn eq_lit(a: &[char], b: &str) -> (r: bool)
    ensures
        r == (a@ == b@),
{
    let bc = chars_of(b);
    chars_eq(a, bc.as_slice())
}

fn reserved_device_name(u: &[char]) -> (r: bool)
    ensures
        r == is_reserved_device_name(u@),
{
    eq_lit(u, "CON") || eq_lit(u, "PRN") || eq_lit(u, "AUX") || eq_lit(u, "NUL") || eq_lit(u, "COM1")
        || eq_lit(u, "COM2") || eq_lit(u, "COM3") || eq_lit(u, "COM4") || eq_lit(u, "COM5") || eq_lit(
        u,
        "COM6",
    ) || eq_lit(u, "COM7") || eq_lit(u, "COM8") || eq_lit(u, "COM9") || eq_lit(u, "LPT1") || eq_lit(
        u,
        "LPT2",
    ) || eq_lit(u, "LPT3") || eq_lit(u, "LPT4") || eq_lit(u, "LPT5") || eq_lit(u, "LPT6") || eq_lit(
        u,
        "LPT7",
    ) || eq_lit(u, "LPT8") || eq_lit(u, "LPT9")
}

/// Make a file name safe for the download directory.
pub fn sanitize_filename(input: &str) -> (r: String)
    ensures
        r@ == sanitize_spec(input@),
{
    let chars = chars_of(input);
    let mut mapped: Vec<char> = Vec::new();
    let mut i: usize = 0;
    while i < chars.len()
        invariant
            chars@ == input@,
            i <= chars@.len(),
            mapped@ =~= chars@.take(i as int).map_values(|c: char| sanitize_char(c)),
        decreases chars@.len() - i,
    {
        let c = chars[i];
        let forbidden = c == '<' || c == '>' || c == ':' || c == '"' || c == '/' || c == '\\' || c == '|'
            || c == '?' || c == '*';
        if is_control(c) || forbidden {
            mapped.push('_');
        } else {
            mapped.push(c);
        }
        i = i + 1;
    }
    assert(chars@.take(chars@.len() as int) =~= chars@);
    let t0 = trim(mapped.as_slice());
    let mut end = t0.len();
    assert(t0@.take(end as int) =~= t0@);
    while end > 0 && t0[end - 1] == '.'
        invariant
            end <= t0@.len(),
            trim_end_dots(t0@) == trim_end_dots(t0@.take(end as int)),
        decreases end,
    {
        assert(t0@.take(end as int).drop_last() =~= t0@.take(end - 1));
        end = end - 1;
    }
    let t = slice_subrange(t0, 0, end);
    assert(t@ =~= t0@.take(end as int));
    assert(trim_end_dots(t@) == t@);
    let upper = to_ascii_uppercase(t);
    let mut output: Vec<char> = Vec::new();
    if reserved_device_name(upper.as_slice()) {
        output.push('_');
    }
    push_chars(&mut output, t);
    if output.len() == 0 {
        return string_from_chars(chars_of(DEFAULT_FILENAME).as_slice());
    }
    if output.len() > MAX_FILENAME_CHARS {
        return string_from_chars(slice_subrange(output.as_slice(), 0, MAX_FILENAME_CHARS));
    }
    string_from_chars(output.as_slice())
}

/// The text of a percent-decoded string, if the decoded bytes are UTF-8.
pub uninterp spec fn percent_decoded_utf8(encoded: Seq<char>) -> Option<Seq<char>>;

/// Calls `percent_encoding::percent_decode_str(encoded).decode_utf8()`:
/// every `%` followed by two hex digits becomes that byte, and the bytes
/// are read as UTF-8 (`None` when they are not). The result is named; the
/// contract adds what the crate's source shows for a string without `%`:
/// nothing is decoded and the text comes back unchanged.
#[verifier::external_body]
fn percent_decode_utf8(encoded: &str) -> (decoded: Option<String>)
    ensures
        percent_decoded_utf8(encoded@) == match decoded {
            Some(text) => Some(text@),
            None => None,
        },
        !has_char(encoded@, '%') ==> (decoded is Some && decoded->0@ == encoded@),
{
    match percent_encoding::percent_decode_str(encoded).decode_utf8() {
        Ok(decoded) => Some(decoded.into_owned()),
        Err(_) => None,
    }
}

/// `"` removed from both ends (`str::trim_matches('"')`).
pub open spec fn trim_quotes(s: Seq<char>) -> Seq<char>
    decreases s.len(),
{
    if s.len() > 0 && s[0] == '"' {
        trim_quotes(s.drop_first())
    } else if s.len() > 0 && s.last() == '"' {
        trim_quotes(s.drop_last())
    } else {
        s
    }
}

/// The text after `''` of a `filename*=charset''percent-encoded`
/// parameter: what is percent-decoded for it.
pub open spec fn star_encoding(part: Seq<char>) -> Option<Seq<char>> {
    match split_once_spec(trim_spec(part), seq!['=']) {
        Some(kv) => if ascii_lower(trim_spec(kv.0)) == "filename*"@ {
            match split_once_spec(trim_quotes(trim_spec(kv.1)), seq!['\'', '\'']) {
                Some(enc) => Some(enc.1),
                None => None,
            }
        } else {
            None
        },
        None => None,
    }
}

/// `decoded[p]`, or nothing past its end.
pub open spec fn decoded_at(decoded: Seq<Option<Seq<char>>>, p: int) -> Option<Seq<char>> {
    if 0 <= p < decoded.len() {
        decoded[p]
    } else {
        None
    }
}

/// The outcome of reading the parameters `parts` after the first `;`, where
/// `decoded[p]` is what the `filename*` parameter at `p` decodes to: `Err`
/// when a parameter has no `=` (the whole parse fails), `Ok` with the
/// decoded `filename*` once one decodes, and otherwise the latest plain
/// `filename` as fallback.
pub open spec fn disposition_scan(parts: Seq<Seq<char>>, decoded: Seq<Option<Seq<char>>>) -> Result<(Option<Seq<char>>, Option<Seq<char>>), ()>
    decreases parts.len(),
{
    if parts.len() == 0 {
        Ok((None, None))
    } else {
        match disposition_scan(parts.drop_last(), decoded) {
            Err(()) => Err(()),
            Ok(st) => if st.0 is Some {
                Ok(st)
            } else {
                match split_once_spec(trim_spec(parts.last()), seq!['=']) {
                    None => Err(()),
                    Some(kv) => {
                        let key = ascii_lower(trim_spec(kv.0));
                        let raw = trim_quotes(trim_spec(kv.1));
                        if key == "filename*"@ {
                            match split_once_spec(raw, seq!['\'', '\'']) {
                                Some(enc) => match decoded_at(decoded, parts.len() - 1) {
                                    Some(d) => Ok((Some(d), st.1)),
                                    None => Ok(st),
                                },
                                None => Ok(st),
                            }
                        } else if key == "filename"@ {
                            Ok((None, Some(raw)))
                        } else {
                            Ok(st)
                        }
                    },
                }
            },
        }
    }
}

/// The parameters of a `Content-Disposition` value: what follows each `;`.
pub open spec fn disposition_params(value: Seq<char>) -> Seq<Seq<char>> {
    split_spec(value, seq![';']).skip(1)
}

/// The file name of a `Content-Disposition` value, given what each
/// `filename*` parameter decodes to: the first that decodes wins, else the
/// last plain `filename`; a parameter without `=` before that makes the
/// value unusable.
pub open spec fn content_disposition_with(value: Seq<char>, decoded: Seq<Option<Seq<char>>>) -> Option<Seq<char>> {
    match disposition_scan(disposition_params(value), decoded) {
        Err(()) => None,
        Ok(st) => match st.0 {
            Some(d) => Some(d),
            None => st.1,
        },
    }
}

/// What each parameter's `filename*` text percent-decodes to.
pub open spec fn star_decodings(value: Seq<char>) -> Seq<Option<Seq<char>>> {
    disposition_params(value).map_values(
        |part: Seq<char>|
            match star_encoding(part) {
                Some(e) => percent_decoded_utf8(e),
                None => None,
            },
    )
}

/// The file name of a `Content-Disposition` value, its `filename*`
/// parameters percent-decoded.
pub open spec fn content_disposition_filename(value: Seq<char>) -> Option<Seq<char>> {
    content_disposition_with(value, star_decodings(value))
}

pub open spec fn opt_text(o: Option<String>) -> Option<Seq<char>> {
    match o {
        Some(s) => Some(s@),
        None => None,
    }
}

pub open spec fn opt_texts(v: Seq<Option<String>>) -> Seq<Option<Seq<char>>> {
    v.map_values(|o: Option<String>| opt_text(o))
}

fn trim_quote_chars(s: &[char]) -> (r: &[char])
    ensures
        r@ == trim_quotes(s@),
{
    let mut a: usize = 0;
    let mut b: usize = s.len();
    assert(s@.subrange(0, s@.len() as int) =~= s@);
    while a < b && (s[a] == '"' || s[b - 1] == '"')
        invariant
            a <= b <= s@.len(),
            trim_quotes(s@) == trim_quotes(s@.subrange(a as int, b as int)),
        decreases b - a,
    {
        if s[a] == '"' {
            assert(s@.subrange(a as int, b as int).drop_first() =~= s@.subrange(a + 1, b as int));
            a = a + 1;
        } else {
            assert(s@.subrange(a as int, b as int).drop_last() =~= s@.subrange(a as int, b - 1));
            b = b - 1;
        }
    }
    slice_subrange(s, a, b)
}

/// The `filename*` text of each parameter of a `Content-Disposition`
/// value, in order.
pub fn filename_star_encodings(value: &str) -> (r: Vec<Option<String>>)
    ensures
        opt_texts(r@) == disposition_params(value@).map_values(|part: Seq<char>| star_encoding(part)),
{
    let chars = chars_of(value);
    let semi: Vec<char> = vec![';'];
    let eq: Vec<char> = vec!['='];
    let ticks: Vec<char> = vec!['\'', '\''];
    assert(semi@ =~= seq![';']);
    assert(eq@ =~= seq!['=']);
    assert(ticks@ =~= seq!['\'', '\'']);
    let parts = split_chars_semi(chars.as_slice(), semi.as_slice());
    let ghost pv = views(parts@);
    let ghost rest = pv.skip(1);
    let ghost target = rest.map_values(|part: Seq<char>| star_encoding(part));
    let mut out: Vec<Option<String>> = Vec::new();
    let mut i: usize = 1;
    while i < parts.len()
        invariant
            pv == views(parts@),
            pv == split_spec(value@, seq![';']),
            rest == pv.skip(1),
            target == rest.map_values(|part: Seq<char>| star_encoding(part)),
            1 <= i <= parts@.len(),
            eq@ == seq!['='],
            ticks@ == seq!['\'', '\''],
            opt_texts(out@) == target.take(i - 1),
        decreases parts@.len() - i,
    {
        let ghost p = pv[i as int];
        assert(rest[i - 1] == p);
        let part = trim(parts[i].as_slice());
        let mut found: Option<String> = None;
        match split_once_chars(part, eq.as_slice()) {
            None => {},
            Some((key_raw, raw_text)) => {
                let key = to_ascii_lowercase(trim(key_raw.as_slice()));
                let raw = trim_quote_chars(trim(raw_text.as_slice()));
                if eq_lit(key.as_slice(), "filename*") {
                    match split_once_chars(raw, ticks.as_slice()) {
                        Some((_, encoded)) => {
                            found = Some(string_from_chars(encoded.as_slice()));
                        },
                        None => {},
                    }
                }
            },
        }
        assert(opt_text(found) == star_encoding(p));
        let ghost before = out@;
        out.push(found);
        assert(opt_texts(out@) =~= opt_texts(before).push(opt_text(found)));
        assert(target.take(i as int) =~= target.take(i - 1).push(target[i - 1]));
        i = i + 1;
    }
    assert(target.take(parts@.len() - 1) =~= target);
    out
}

/// The file name of a `Content-Disposition` value, given what the
/// `filename*` parameter at each position decodes to (`decoded[p]` for the
/// parameter after the `p+1`-th `;`).
pub fn content_disposition_filename_with(value: &str, decoded: &Vec<Option<String>>) -> (r: Option<String>)
    ensures
        opt_text(r) == content_disposition_with(value@, opt_texts(decoded@)),
{
    let ghost dv = opt_texts(decoded@);
    let chars = chars_of(value);
    let semi: Vec<char> = vec![';'];
    let eq: Vec<char> = vec!['='];
    let ticks: Vec<char> = vec!['\'', '\''];
    assert(semi@ =~= seq![';']);
    assert(eq@ =~= seq!['=']);
    assert(ticks@ =~= seq!['\'', '\'']);
    let parts = split_chars_semi(chars.as_slice(), semi.as_slice());
    let ghost pv = views(parts@);
    let ghost rest = pv.skip(1);
    let mut fallback: Option<Vec<char>> = None;
    let mut i: usize = 1;
    assert(rest.take(0) =~= Seq::<Seq<char>>::empty());
    while i < parts.len()
        invariant
            pv == views(parts@),
            pv == split_spec(value@, seq![';']),
            rest == pv.skip(1),
            dv == opt_texts(decoded@),
            1 <= i <= parts@.len(),
            eq@ == seq!['='],
            ticks@ == seq!['\'', '\''],
            disposition_scan(rest.take(i - 1), dv) == Ok::<(Option<Seq<char>>, Option<Seq<char>>), ()>(
                (None, match fallback { Some(f) => Some(f@), None => None }),
            ),
        decreases parts@.len() - i,
    {
        let part = trim(parts[i].as_slice());
        assert(rest.take(i as int).drop_last() =~= rest.take(i - 1));
        assert(rest.take(i as int).last() == pv[i as int]);
        match split_once_chars(part, eq.as_slice()) {
            None => {
                proof {
                    lemma_disposition_error_stays(rest, dv, i as int);
                }
                return None;
            },
            Some((key_raw, raw_text)) => {
                let key = to_ascii_lowercase(trim(key_raw.as_slice()));
                let raw = trim_quote_chars(trim(raw_text.as_slice()));
                if eq_lit(key.as_slice(), "filename*") {
                    match split_once_chars(raw, ticks.as_slice()) {
                        Some(_) => {
                            if i - 1 < decoded.len() {
                                match &decoded[i - 1] {
                                    Some(d) => {
                                        assert(decoded_at(dv, i - 1) == Some(d@));
                                        proof {
                                            lemma_disposition_found_stays(rest, dv, i as int, d@);
                                        }
                                        return Some(d.clone());
                                    },
                                    None => {
                                        assert(decoded_at(dv, i - 1) is None);
                                    },
                                }
                            }
                        },
                        None => {},
                    }
                } else if eq_lit(key.as_slice(), "filename") {
                    fallback = Some(to_vec(raw));
                }
            },
        }
        i = i + 1;
    }
    assert(rest.take(parts@.len() - 1) =~= rest);
    match fallback {
        Some(f) => Some(string_from_chars(f.as_slice())),
        None => None,
    }
}

/// Extract the file name from a `Content-Disposition` header value: the
/// `filename*` texts are percent-decoded, then
/// [`content_disposition_filename_with`] decides.
pub fn parse_content_disposition_filename(value: &str) -> (r: Option<String>)
    ensures
        opt_text(r) == content_disposition_filename(value@),
{
    let encodings = filename_star_encodings(value);
    let ghost target = star_decodings(value@);
    let ghost params = disposition_params(value@);
    assert(opt_texts(encodings@).len() == encodings@.len());
    let mut decoded: Vec<Option<String>> = Vec::new();
    let mut k: usize = 0;
    while k < encodings.len()
        invariant
            k <= encodings@.len(),
            params == disposition_params(value@),
            encodings@.len() == params.len(),
            target.len() == params.len(),
            target == star_decodings(value@),
            opt_texts(encodings@) == disposition_params(value@).map_values(|part: Seq<char>| star_encoding(part)),
            opt_texts(decoded@) == target.take(k as int),
        decreases encodings@.len() - k,
    {
        assert(opt_texts(encodings@)[k as int] == opt_text(encodings@[k as int]));
        let next: Option<String> = match &encodings[k] {
            Some(e) => percent_decode_utf8(e.as_str()),
            None => None,
        };
        proof {
            let ghost enc = params.map_values(|part: Seq<char>| star_encoding(part));
            assert(enc[k as int] == star_encoding(params[k as int]));
            assert(star_encoding(params[k as int]) == opt_text(encodings@[k as int]));
            assert(target[k as int] == opt_text(next));
        }
        let ghost before = decoded@;
        decoded.push(next);
        assert(opt_texts(decoded@) =~= opt_texts(before).push(opt_text(next)));
        assert(target.take(k + 1) =~= target.take(k as int).push(target[k as int]));
        k = k + 1;
    }
    assert(target.take(encodings@.len() as int) =~= target);
    content_disposition_filename_with(value, &decoded)
}

fn split_chars_semi(s: &[char], p: &[char]) -> (r: Vec<Vec<char>>)
    requires
        p@ == seq![';'],
    ensures
        views(r@) == split_spec(s@, seq![';']),
        r@.len() > 0,
{
    let r = crate::text::split_chars(s, p);
    proof {
        crate::infra::lemma_split_nonempty(s@, p@, 0);
    }
    r
}

proof fn lemma_disposition_error_stays(parts: Seq<Seq<char>>, decoded: Seq<Option<Seq<char>>>, k: int)
    requires
        1 <= k <= parts.len(),
        disposition_scan(parts.take(k), decoded) == Err::<(Option<Seq<char>>, Option<Seq<char>>), ()>(()),
    ensures
        disposition_scan(parts, decoded) == Err::<(Option<Seq<char>>, Option<Seq<char>>), ()>(()),
    decreases parts.len() - k,
{
    if k < parts.len() {
        assert(parts.take(k + 1).drop_last() =~= parts.take(k));
        lemma_disposition_error_stays(parts, decoded, k + 1);
    } else {
        assert(parts.take(k) =~= parts);
    }
}

proof fn lemma_disposition_found_stays(parts: Seq<Seq<char>>, decoded: Seq<Option<Seq<char>>>, k: int, d: Seq<char>)
    requires
        1 <= k <= parts.len(),
        disposition_scan(parts.take(k), decoded) matches Ok(st) && st.0 == Some(d),
    ensures
        disposition_scan(parts, decoded) matches Ok(st) && st.0 == Some(d),
    decreases parts.len() - k,
{
    if k < parts.len() {
        assert(parts.take(k + 1).drop_last() =~= parts.take(k));
        lemma_disposition_found_stays(parts, decoded, k + 1, d);
    } else {
        assert(parts.take(k) =~= parts);
    }
}

/// Why a download cannot start.
#[derive(Clone, Copy, Debug, PartialEq, Eq)]
pub enum DownloadError {
    UnsupportedScheme,
}

impl DownloadError {
    pub fn message(&self) -> (r: &'static str)
        ensures
            r@ == "Only HTTP and HTTPS downloads are supported"@,
    {
        "Only HTTP and HTTPS downloads are supported"
    }
}

/// Only plain and TLS HTTP are fetched.
pub open spec fn is_supported_scheme(scheme: Seq<char>) -> bool {
    scheme == "http"@ || scheme == "https"@
}

/// `str::trim().is_empty()`.
pub open spec fn is_blank(s: Seq<char>) -> bool {
    trim_spec(s).len() == 0
}

/// What follows the last `/` of `p` (all of `p` when it has none).
pub open spec fn after_last_slash(p: Seq<char>) -> Seq<char>
    decreases p.len(),
{
    if p.len() == 0 {
        p
    } else if p.last() == '/' {
        Seq::empty()
    } else {
        after_last_slash(p.drop_last()).push(p.last())
    }
}

/// The last segment of a URL path as `Url::path_segments().next_back()`
/// gives it: the path must start with `/`, and the segments are what lies
/// between the slashes.
pub open spec fn last_path_segment(path: Seq<char>) -> Option<Seq<char>> {
    if path.len() > 0 && path[0] == '/' {
        Some(after_last_slash(path))
    } else {
        None
    }
}

/// The file name taken from a URL's last path segment, or `download`.
pub open spec fn segment_filename(segment: Option<Seq<char>>) -> Seq<char> {
    match segment {
        Some(s) => if s.len() > 0 && sanitize_spec(s).len() > 0 {
            sanitize_spec(s)
        } else {
            DEFAULT_FILENAME@
        },
        None => DEFAULT_FILENAME@,
    }
}

/// The name a new download starts with: the caller's suggestion when it is
/// not blank, else the name in the URL's path.
pub open spec fn initial_filename(suggested: Option<Seq<char>>, path: Seq<char>) -> Seq<char> {
    match suggested {
        Some(s) => if !is_blank(s) {
            sanitize_spec(s)
        } else {
            segment_filename(last_path_segment(path))
        },
        None => segment_filename(last_path_segment(path)),
    }
}

pub open spec fn plan_download_spec(scheme: Seq<char>, suggested: Option<Seq<char>>, path: Seq<char>) -> Result<Seq<char>, DownloadError> {
    if is_supported_scheme(scheme) {
        Ok(initial_filename(suggested, path))
    } else {
        Err(DownloadError::UnsupportedScheme)
    }
}

pub open spec fn opt_str_view(o: Option<&str>) -> Option<Seq<char>> {
    match o {
        Some(s) => Some(s@),
        None => None,
    }
}

pub open spec fn plan_view(r: Result<String, DownloadError>) -> Result<Seq<char>, DownloadError> {
    match r {
        Ok(s) => Ok(s@),
        Err(e) => Err(e),
    }
}

fn after_last_slash_exec(p: &[char]) -> (r: &[char])
    ensures
        r@ == after_last_slash(p@),
{
    let mut k: usize = p.len();
    assert(p@.take(p@.len() as int) =~= p@);
    assert(p@ + p@.skip(p@.len() as int) =~= p@);
    while k > 0 && p[k - 1] != '/'
        invariant
            k <= p@.len(),
            after_last_slash(p@) == after_last_slash(p@.take(k as int)) + p@.skip(k as int),
        decreases k,
    {
        assert(p@.take(k as int).drop_last() =~= p@.take(k - 1));
        assert(p@.skip(k - 1) =~= seq![p@[k - 1]] + p@.skip(k as int));
        assert(after_last_slash(p@.take(k - 1)).push(p@[k - 1]) + p@.skip(k as int) =~= after_last_slash(
            p@.take(k - 1),
        ) + p@.skip(k - 1));
        k = k - 1;
    }
    assert(p@.take(p@.len() as int) =~= p@);
    assert(after_last_slash(p@.take(k as int)) =~= Seq::<char>::empty());
    assert(Seq::<char>::empty() + p@.skip(k as int) =~= p@.skip(k as int));
    slice_subrange(p, k, p.len())
}

/// The file name for a download of a URL whose path is `path`.
pub fn filename_from_path(path: &str) -> (r: String)
    ensures
        r@ == segment_filename(last_path_segment(path@)),
{
    let p = chars_of(path);
    if p.len() > 0 && p[0] == '/' {
        let seg = after_last_slash_exec(p.as_slice());
        if seg.len() > 0 {
            let text = string_from_chars(seg);
            proof {
                lemma_sanitize_nonempty(text@);
            }
            return sanitize_filename(text.as_str());
        }
    }
    DEFAULT_FILENAME.to_owned()
}

/// The scheme of a URL, as `Url::scheme` gives it.
pub uninterp spec fn url_scheme_of(url: Url) -> Seq<char>;

/// The path of a URL, as `Url::path` gives it.
pub uninterp spec fn url_path_of(url: Url) -> Seq<char>;

/// Calls `Url::scheme`, which gives the scheme lower-cased, as an ASCII
/// string without the `:`. The scheme is named.
#[verifier::external_body]
fn url_scheme(url: &Url) -> (scheme: String)
    ensures
        scheme@ == url_scheme_of(*url),
        forall|i: int| 0 <= i < scheme@.len() ==> (#[trigger] scheme@[i] as u32) < 128 && !is_ascii_upper(scheme@[i]) && scheme@[i] != ':',
{
    url.scheme().to_string()
}

/// Calls `Url::path`, which gives the path as a percent-encoded ASCII
/// string. The path is named.
#[verifier::external_body]
fn url_path(url: &Url) -> (path: String)
    ensures
        path@ == url_path_of(*url),
        forall|i: int| 0 <= i < path@.len() ==> (#[trigger] path@[i] as u32) < 128,
{
    url.path().to_string()
}

/// The file name for a download of `url`: the last segment of its path,
/// made safe, or `download`.
pub fn filename_from_url(url: &Url) -> (r: String)
    ensures
        r@ == segment_filename(last_path_segment(url_path_of(*url))),
{
    let path = url_path(url);
    filename_from_path(path.as_str())
}

fn is_blank_str(s: &str) -> (r: bool)
    ensures
        r == is_blank(s@),
{
    let c = chars_of(s);
    trim(c.as_slice()).len() == 0
}

/// What starting a download decides before anything is fetched: the
/// scheme must be `http` or `https`, and the file name is the non-blank
/// suggestion made safe, or the name in the URL's path.
pub fn plan_download(scheme: &str, suggested: Option<&str>, path: &str) -> (r: Result<String, DownloadError>)
    ensures
        plan_view(r) == plan_download_spec(scheme@, opt_str_view(suggested), path@),
{
    let http = "http";
    let https = "https";
    proof {
        reveal_strlit("http");
        reveal_strlit("https");
    }
    let sc = chars_of(scheme);
    if !(eq_lit(sc.as_slice(), http) || eq_lit(sc.as_slice(), https)) {
        return Err(DownloadError::UnsupportedScheme);
    }
    match suggested {
        Some(s) => {
            if !is_blank_str(s) {
                return Ok(sanitize_filename(s));
            }
        },
        None => {},
    }
    Ok(filename_from_path(path))
}

/// `plan_download` for a parsed URL, on its own scheme and path.
pub fn plan_download_for_url(url: &Url, suggested: Option<&str>) -> (r: Result<String, DownloadError>)
    ensures
        plan_view(r) == plan_download_spec(url_scheme_of(*url), opt_str_view(suggested), url_path_of(*url)),
{
    let scheme = url_scheme(url);
    let path = url_path(url);
    plan_download(scheme.as_str(), suggested, path.as_str())
}

/// A single file name: not empty, not `.` or `..`, no `/`.
pub open spec fn is_plain_file_name(name: Seq<char>) -> bool {
    name.len() > 0 && name != "."@ && name != ".."@ && !has_char(name, '/')
}

/// Index of the last `.` in `name`.
pub open spec fn last_dot(name: Seq<char>) -> Option<int>
    decreases name.len(),
{
    if name.len() == 0 {
        None
    } else if name.last() == '.' {
        Some(name.len() - 1)
    } else {
        last_dot(name.drop_last())
    }
}

/// `Path::file_stem` of a plain file name: up to the last `.`, unless that
/// dot is the first character.
pub open spec fn file_stem_spec(name: Seq<char>) -> Seq<char> {
    match last_dot(name) {
        Some(i) => if i > 0 {
            name.take(i)
        } else {
            name
        },
        None => name,
    }
}

/// `Path::extension` of a plain file name.
pub open spec fn extension_spec(name: Seq<char>) -> Option<Seq<char>> {
    match last_dot(name) {
        Some(i) => if i > 0 {
            Some(name.skip(i + 1))
        } else {
            None
        },
        None => None,
    }
}

/// The extension with its dot, or nothing.
pub open spec fn dotted_extension(name: Seq<char>) -> Seq<char> {
    match extension_spec(name) {
        Some(e) => seq!['.'] + e,
        None => Seq::empty(),
    }
}

/// Largest `n` tried in `stem (n).ext` before falling back to a random token.
pub const MAX_COLLISION_SUFFIX: u32 = 9999;

/// `stem (n).ext`.
pub open spec fn collision_name(name: Seq<char>, n: nat) -> Seq<char> {
    file_stem_spec(name) + " ("@ + nat_decimal(n) + ")"@ + dotted_extension(name)
}

/// The name tried at attempt `k` when looking for a free destination: the
/// name itself first, then `stem (1).ext` up to `stem (9999).ext`.
pub open spec fn unique_candidate_spec(name: Seq<char>, k: nat) -> Option<Seq<char>> {
    if k == 0 {
        Some(name)
    } else if k <= MAX_COLLISION_SUFFIX {
        Some(collision_name(name, k))
    } else {
        None
    }
}

fn last_dot_exec(name: &[char]) -> (r: Option<usize>)
    ensures
        match r {
            Some(i) => last_dot(name@) == Some(i as int) && i < name@.len(),
            None => last_dot(name@) is None,
        },
{
    let mut k: usize = name.len();
    assert(name@.take(name@.len() as int) =~= name@);
    while k > 0 && name[k - 1] != '.'
        invariant
            k <= name@.len(),
            last_dot(name@) == last_dot(name@.take(k as int)),
        decreases k,
    {
        assert(name@.take(k as int).drop_last() =~= name@.take(k - 1));
        k = k - 1;
    }
    assert(name@.take(name@.len() as int) =~= name@);
    if k == 0 {
        None
    } else {
        Some(k - 1)
    }
}

fn push_stem_and_extension(name: &[char], stem_out: &mut Vec<char>, ext_out: &mut Vec<char>)
    requires
        old(stem_out)@.len() == 0,
        old(ext_out)@.len() == 0,
    ensures
        final(stem_out)@ == file_stem_spec(name@),
        final(ext_out)@ == dotted_extension(name@),
{
    match last_dot_exec(name) {
        Some(i) => {
            if i > 0 {
                assert(i < name.len());
                push_chars(stem_out, slice_subrange(name, 0, i));
                ext_out.push('.');
                push_chars(ext_out, slice_subrange(name, i + 1, name.len()));
                assert(stem_out@ =~= file_stem_spec(name@));
                assert(ext_out@ =~= dotted_extension(name@));
            } else {
                push_chars(stem_out, name);
                assert(stem_out@ =~= file_stem_spec(name@));
            }
        },
        None => {
            push_chars(stem_out, name);
            assert(stem_out@ =~= file_stem_spec(name@));
        },
    }
}

/// The `attempt`-th name to try for a free destination, `None` once the
/// numbered names are used up.
pub fn unique_filename_candidate(filename: &str, attempt: u32) -> (r: Option<String>)
    ensures
        match r {
            Some(s) => unique_candidate_spec(filename@, attempt as nat) == Some(s@),
            None => unique_candidate_spec(filename@, attempt as nat) is None,
        },
{
    if attempt == 0 {
        return Some(filename.to_owned());
    }
    if attempt > MAX_COLLISION_SUFFIX {
        return None;
    }
    let name = chars_of(filename);
    let mut out: Vec<char> = Vec::new();
    let mut ext: Vec<char> = Vec::new();
    push_stem_and_extension(name.as_slice(), &mut out, &mut ext);
    push_str(&mut out, " (");
    push_u64(&mut out, attempt as u64);
    push_str(&mut out, ")");
    push_chars(&mut out, ext.as_slice());
    proof {
        reveal_strlit(" (");
        reveal_strlit(")");
    }
    assert(out@ =~= collision_name(filename@, attempt as nat));
    Some(string_from_chars(out.as_slice()))
}

/// `stem-token.ext`: the last resort when every numbered name is taken.
pub open spec fn fallback_name(name: Seq<char>, token: Seq<char>) -> Seq<char> {
    file_stem_spec(name) + seq!['-'] + token + dotted_extension(name)
}

/// The name used when every numbered candidate is taken; `token` is a
/// random identifier.
pub fn fallback_filename(filename: &str, token: &str) -> (r: String)
    ensures
        r@ == fallback_name(filename@, token@),
{
    let name = chars_of(filename);
    let mut out: Vec<char> = Vec::new();
    let mut ext: Vec<char> = Vec::new();
    push_stem_and_extension(name.as_slice(), &mut out, &mut ext);
    out.push('-');
    push_str(&mut out, token);
    push_chars(&mut out, ext.as_slice());
    assert(out@ =~= fallback_name(filename@, token@));
    string_from_chars(out.as_slice())
}

/// A lower-case hexadecimal digit.
pub open spec fn is_lower_hex_digit(c: char) -> bool {
    ('0' <= c && c <= '9') || ('a' <= c && c <= 'f')
}

/// The hyphenated text of a random (version 4) UUID, as
/// `67e55044-10b1-426f-9247-bb680e5fe0c8`: lower-case hex digits in groups
/// of 8, 4, 4, 4 and 12, the version digit `4` opening the third group and
/// one of `8`, `9`, `a`, `b` opening the fourth.
pub open spec fn is_v4_uuid_text(t: Seq<char>) -> bool {
    &&& t.len() == 36
    &&& forall|i: int|
        0 <= i < 36 ==> if i == 8 || i == 13 || i == 18 || i == 23 {
            t[i] == '-'
        } else {
            is_lower_hex_digit(#[trigger] t[i])
        }
    &&& t[14] == '4'
    &&& (t[19] == '8' || t[19] == '9' || t[19] == 'a' || t[19] == 'b')
}

/// Calls `uuid::Uuid::new_v4` and writes the UUID with its `Display`, the
/// hyphenated lower-case form. The value is random; the contract states the
/// shape that every value has: `new_v4` fixes the version and variant bits
/// and `Display` writes the 32 hex digits in hyphenated groups.
#[verifier::external_body]
fn random_token() -> (r: String)
    ensures
        is_v4_uuid_text(r@),
{
    uuid::Uuid::new_v4().to_string()
}

/// `names` holds `name`.
pub open spec fn names_contain(names: Seq<String>, name: Seq<char>) -> bool {
    exists|i: int| 0 <= i < names.len() && #[trigger] names[i]@ == name
}

/// Candidate `k` for `name` exists and is not among `taken`.
pub open spec fn free_candidate(name: Seq<char>, taken: Seq<String>, k: nat) -> bool {
    unique_candidate_spec(name, k) matches Some(c) && !names_contain(taken, c)
}

fn chars_of_names(names: &[String]) -> (r: Vec<Vec<char>>)
    ensures
        r@.len() == names@.len(),
        forall|i: int| 0 <= i < names@.len() ==> #[trigger] r@[i]@ == names@[i]@,
{
    let mut out: Vec<Vec<char>> = Vec::new();
    let mut i: usize = 0;
    while i < names.len()
        invariant
            i <= names@.len(),
            out@.len() == i,
            forall|j: int| 0 <= j < i ==> #[trigger] out@[j]@ == names@[j]@,
        decreases names@.len() - i,
    {
        out.push(chars_of(names[i].as_str()));
        i += 1;
    }
    out
}

fn contains_name(names: &Vec<Vec<char>>, name: &[char]) -> (r: bool)
    ensures
        r == exists|i: int| 0 <= i < names@.len() && #[trigger] names@[i]@ == name@,
{
    let mut i: usize = 0;
    while i < names.len()
        invariant
            i <= names@.len(),
            forall|j: int| 0 <= j < i ==> #[trigger] names@[j]@ != name@,
        decreases names@.len() - i,
    {
        if chars_eq(names[i].as_slice(), name) {
            assert(names@[i as int]@ == name@);
            return true;
        }
        i += 1;
    }
    false
}

/// The destination name for `filename` when the names in `taken` are in
/// use: the first candidate ([`unique_candidate_spec`]) that is not taken,
/// or, when all of them are, `stem-<uuid>.ext` with a fresh random UUID.
pub fn choose_free_filename(filename: &str, taken: &[String]) -> (r: String)
    ensures
        (exists|k: nat| free_candidate(filename@, taken@, k)) ==> exists|k: nat|
            #![trigger free_candidate(filename@, taken@, k)]
            {
                &&& free_candidate(filename@, taken@, k)
                &&& unique_candidate_spec(filename@, k) == Some(r@)
                &&& forall|j: nat| j < k ==> !free_candidate(filename@, taken@, j)
            },
        !(exists|k: nat| free_candidate(filename@, taken@, k)) ==> exists|t: Seq<char>|
            #![auto]
            is_v4_uuid_text(t) && r@ == fallback_name(filename@, t),
{
    let names = chars_of_names(taken);
    let mut attempt: u32 = 0;
    while attempt <= MAX_COLLISION_SUFFIX
        invariant
            attempt <= MAX_COLLISION_SUFFIX + 1,
            names@.len() == taken@.len(),
            forall|i: int| 0 <= i < taken@.len() ==> #[trigger] names@[i]@ == taken@[i]@,
            forall|j: nat| j < attempt ==> !free_candidate(filename@, taken@, j),
        decreases MAX_COLLISION_SUFFIX + 1 - attempt,
    {
        let candidate = unique_filename_candidate(filename, attempt);
        match candidate {
            Some(c) => {
                let cc = chars_of(c.as_str());
                let found = contains_name(&names, cc.as_slice());
                assert(found == names_contain(taken@, c@)) by {
                    if found {
                        let i = choose|i: int| 0 <= i < names@.len() && #[trigger] names@[i]@ == cc@;
                        assert(taken@[i]@ == c@);
                    }
                    if names_contain(taken@, c@) {
                        let i = choose|i: int| 0 <= i < taken@.len() && #[trigger] taken@[i]@ == c@;
                        assert(names@[i]@ == cc@);
                    }
                }
                if !found {
                    assert(free_candidate(filename@, taken@, attempt as nat));
                    return c;
                }
            },
            None => {},
        }
        attempt += 1;
    }
    assert forall|k: nat| !free_candidate(filename@, taken@, k) by {
        if k > MAX_COLLISION_SUFFIX {
            assert(unique_candidate_spec(filename@, k) is None);
        }
    }
    let token = random_token();
    let r = fallback_filename(filename, token.as_str());
    assert(is_v4_uuid_text(token@) && r@ == fallback_name(filename@, token@));
    r
}

/// The in-progress file beside `destination`: the same path with `.part`
/// appended.
pub fn partial_path(destination: &str) -> (r: String)
    ensures
        r@ == destination@ + ".part"@,
{
    let mut out = chars_of(destination);
    push_str(&mut out, ".part");
    string_from_chars(out.as_slice())
}

/// A character a file name may hold.
pub open spec fn is_safe_name_char(c: char) -> bool {
    !is_forbidden_name_char(c) && !is_control_spec(c)
}

pub open spec fn all_safe_chars(s: Seq<char>) -> bool {
    forall|i: int| 0 <= i < s.len() ==> is_safe_name_char(#[trigger] s[i])
}

proof fn lemma_safe_drop_first(s: Seq<char>)
    requires
        all_safe_chars(s),
        s.len() > 0,
    ensures
        all_safe_chars(s.drop_first()),
{
    assert forall|i: int| 0 <= i < s.drop_first().len() implies is_safe_name_char(#[trigger] s.drop_first()[i]) by {
        assert(s.drop_first()[i] == s[i + 1]);
    }
}

proof fn lemma_safe_take(s: Seq<char>, k: int)
    requires
        all_safe_chars(s),
        0 <= k <= s.len(),
    ensures
        all_safe_chars(s.take(k)),
{
    assert forall|i: int| 0 <= i < s.take(k).len() implies is_safe_name_char(#[trigger] s.take(k)[i]) by {
        assert(s.take(k)[i] == s[i]);
    }
}

proof fn lemma_trim_start_safe(s: Seq<char>)
    requires
        all_safe_chars(s),
    ensures
        all_safe_chars(trim_start_spec(s)),
    decreases s.len(),
{
    if s.len() > 0 && is_whitespace_spec(s[0]) {
        lemma_safe_drop_first(s);
        lemma_trim_start_safe(s.drop_first());
    }
}

proof fn lemma_trim_end_safe(s: Seq<char>)
    requires
        all_safe_chars(s),
    ensures
        all_safe_chars(trim_end_spec(s)),
    decreases s.len(),
{
    if s.len() > 0 && is_whitespace_spec(s.last()) {
        lemma_safe_take(s, s.len() - 1);
        assert(s.take(s.len() - 1) =~= s.drop_last());
        lemma_trim_end_safe(s.drop_last());
    }
}

proof fn lemma_trim_end_dots(s: Seq<char>)
    requires
        all_safe_chars(s),
    ensures
        all_safe_chars(trim_end_dots(s)),
        trim_end_dots(s).len() <= s.len(),
        trim_end_dots(s).len() > 0 ==> trim_end_dots(s).last() != '.',
    decreases s.len(),
{
    if s.len() > 0 && s.last() == '.' {
        lemma_safe_take(s, s.len() - 1);
        assert(s.take(s.len() - 1) =~= s.drop_last());
        lemma_trim_end_dots(s.drop_last());
    }
}

proof fn lemma_reserved_names_short(u: Seq<char>)
    requires
        is_reserved_device_name(u),
    ensures
        3 <= u.len() <= 4,
        u[0] != '_',
{
    reveal_strlit("CON");
    reveal_strlit("PRN");
    reveal_strlit("AUX");
    reveal_strlit("NUL");
    reveal_strlit("COM1");
    reveal_strlit("COM2");
    reveal_strlit("COM3");
    reveal_strlit("COM4");
    reveal_strlit("COM5");
    reveal_strlit("COM6");
    reveal_strlit("COM7");
    reveal_strlit("COM8");
    reveal_strlit("COM9");
    reveal_strlit("LPT1");
    reveal_strlit("LPT2");
    reveal_strlit("LPT3");
    reveal_strlit("LPT4");
    reveal_strlit("LPT5");
    reveal_strlit("LPT6");
    reveal_strlit("LPT7");
    reveal_strlit("LPT8");
    reveal_strlit("LPT9");
}

/// A sanitized name is safe to create in the download directory: between
/// 1 and 240 characters, none of them a control character or one of
/// `< > : " / \ | ? *`, not a Windows device name in any case, and not `.`
/// or `..`.
pub proof fn lemma_sanitized_name_is_safe(input: Seq<char>)
    ensures
        1 <= sanitize_spec(input).len() <= MAX_FILENAME_CHARS,
        all_safe_chars(sanitize_spec(input)),
        !is_reserved_device_name(ascii_upper(sanitize_spec(input))),
        is_plain_file_name(sanitize_spec(input)),
{
    let mapped = input.map_values(|c: char| sanitize_char(c));
    assert(all_safe_chars(mapped)) by {
        assert forall|i: int| 0 <= i < mapped.len() implies is_safe_name_char(#[trigger] mapped[i]) by {
            assert(mapped[i] == sanitize_char(input[i]));
        }
    }
    lemma_trim_start_safe(mapped);
    lemma_trim_end_safe(trim_start_spec(mapped));
    let t = trim_end_dots(trim_spec(mapped));
    lemma_trim_end_dots(trim_spec(mapped));
    let reserved = is_reserved_device_name(ascii_upper(t));
    let o = if reserved {
        seq!['_'] + t
    } else {
        t
    };
    assert(all_safe_chars(o)) by {
        assert forall|i: int| 0 <= i < o.len() implies is_safe_name_char(#[trigger] o[i]) by {
            if reserved && i > 0 {
                assert(o[i] == t[i - 1]);
            }
        }
    }
    let r = sanitize_spec(input);
    reveal_strlit("download");
    reveal_strlit(".");
    reveal_strlit("..");
    if o.len() == 0 {
        assert(r == DEFAULT_FILENAME@);
        if is_reserved_device_name(ascii_upper(r)) {
            lemma_reserved_names_short(ascii_upper(r));
        }
        assert(!has_char(r, '/'));
    } else if o.len() > MAX_FILENAME_CHARS {
        assert(r == o.take(MAX_FILENAME_CHARS as int));
        lemma_safe_take(o, MAX_FILENAME_CHARS as int);
        if is_reserved_device_name(ascii_upper(r)) {
            lemma_reserved_names_short(ascii_upper(r));
        }
        assert(!has_char(r, '/')) by {
            if has_char(r, '/') {
                let i = choose|i: int| 0 <= i < r.len() && r[i] == '/';
                assert(is_safe_name_char(r[i]));
            }
        }
    } else {
        assert(r == o);
        if reserved {
            if is_reserved_device_name(ascii_upper(o)) {
                lemma_reserved_names_short(ascii_upper(o));
                assert(ascii_upper(o)[0] == '_');
            }
            assert(r[0] == '_');
        } else {
            assert(t.last() != '.');
        }
        assert(!has_char(r, '/')) by {
            if has_char(r, '/') {
                let i = choose|i: int| 0 <= i < r.len() && r[i] == '/';
                assert(is_safe_name_char(r[i]));
            }
        }
    }
}

/// The partial file never has the destination's own name.
pub proof fn lemma_partial_path_differs(destination: Seq<char>)
    ensures
        destination + ".part"@ != destination,
{
    reveal_strlit(".part");
    assert((destination + ".part"@).len() == destination.len() + 5);
}

proof fn lemma_last_dot_is_dot(name: Seq<char>)
    ensures
        last_dot(name) matches Some(i) ==> 0 <= i < name.len() && name[i] == '.',
    decreases name.len(),
{
    if name.len() > 0 && name.last() != '.' {
        lemma_last_dot_is_dot(name.drop_last());
    }
}

/// A plain name is its stem followed by its dotted extension.
pub proof fn lemma_stem_and_extension(name: Seq<char>)
    ensures
        file_stem_spec(name) + dotted_extension(name) == name,
{
    lemma_last_dot_is_dot(name);
    match last_dot(name) {
        Some(i) => {
            if i > 0 {
                assert(name.take(i) + (seq!['.'] + name.skip(i + 1)) =~= name);
            } else {
                assert(name + Seq::<char>::empty() =~= name);
            }
        },
        None => {
            assert(name + Seq::<char>::empty() =~= name);
        },
    }
}

/// The numbered names tried for a free destination never repeat the name
/// itself, and different numbers give different names.
pub proof fn lemma_collision_names_distinct(name: Seq<char>, n: nat, m: nat)
    ensures
        collision_name(name, n) != name,
        n != m ==> collision_name(name, n) != collision_name(name, m),
{
    lemma_stem_and_extension(name);
    reveal_strlit(" (");
    reveal_strlit(")");
    let stem = file_stem_spec(name);
    let ext = dotted_extension(name);
    assert(collision_name(name, n).len() == stem.len() + 2 + nat_decimal(n).len() + 1 + ext.len());
    if n != m && collision_name(name, n) == collision_name(name, m) {
        let a = collision_name(name, n);
        let b = collision_name(name, m);
        let lo: int = stem.len() as int + 2;
        assert(nat_decimal(n).len() == nat_decimal(m).len());
        assert(a.subrange(lo, lo + nat_decimal(n).len()) =~= nat_decimal(n));
        assert(b.subrange(lo, lo + nat_decimal(m).len()) =~= nat_decimal(m));
        lemma_decimal_injective(n, m);
    }
}

} // verus!
