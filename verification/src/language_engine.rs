//! Source-language front end: detects `.ts`, `.tss` and `.inf`/`.infra`
//! sources and lowers them to JavaScript for the browser's script engine,
//! without a second runtime or interpreter.

use vstd::prelude::*;
use std::path::Path;
use crate::downloads::extension_spec;
use crate::infra::{lower_infra, lower_infra_spec};
use crate::text::{
    ascii_lower, ascii_lower_char, ascii_upper, ascii_upper_char, chars_eq, chars_of, has_char, starts_with, starts_with_str, string_from_chars,
    to_ascii_lowercase, trim_start, trim_start_spec,
};
use crate::typescript::{lower_typescript_chars, lower_typescript_spec};

verus! {

#[derive(Clone, Copy, Debug, PartialEq, Eq)]
pub enum SourceLanguage {
    JavaScript,
    TypeScript,
    Tss,
    Infra,
}

/// The language that a file extension names, ignoring ASCII case.
pub open spec fn language_for_extension(ext: Seq<char>) -> Option<SourceLanguage> {
    let l = ascii_lower(ext);
    if l == "ts"@ {
        Some(SourceLanguage::TypeScript)
    } else if l == "tss"@ {
        Some(SourceLanguage::Tss)
    } else if l == "inf"@ || l == "infra"@ {
        Some(SourceLanguage::Infra)
    } else if l == "js"@ || l == "mjs"@ || l == "cjs"@ {
        Some(SourceLanguage::JavaScript)
    } else {
        None
    }
}

/// The language guessed from the text: INFRA when it starts, after leading
/// whitespace, with `getlib ` or `PACK`; JavaScript otherwise.
pub open spec fn language_from_source(source: Seq<char>) -> SourceLanguage {
    let t = trim_start_spec(source);
    if starts_with(t, "getlib "@) || starts_with(t, "PACK"@) {
        SourceLanguage::Infra
    } else {
        SourceLanguage::JavaScript
    }
}

/// A known extension decides; otherwise the text does.
pub open spec fn detect_spec(ext: Option<Seq<char>>, source: Seq<char>) -> SourceLanguage {
    match ext {
        Some(e) => match language_for_extension(e) {
            Some(l) => l,
            None => language_from_source(source),
        },
        None => language_from_source(source),
    }
}

pub open spec fn opt_view(o: Option<&str>) -> Option<Seq<char>> {
    match o {
        Some(s) => Some(s@),
        None => None,
    }
}

/// A path that is one plain file name on every platform: not empty, not
/// `.` or `..`, and free of the characters that separate components or
/// start a drive prefix on some platform (`/`, `\`, `:`).
pub open spec fn is_portable_file_name(path: Seq<char>) -> bool {
    &&& path.len() > 0
    &&& path != "."@
    &&& path != ".."@
    &&& !has_char(path, '/')
    &&& !has_char(path, '\\')
    &&& !has_char(path, ':')
}

/// Calls `Path::extension` on the path written as `path`. The file name of
/// a portable file name is the name itself on every platform, and its
/// extension is, as the documentation states, what follows the last `.`,
/// or nothing when there is no `.` or the only one opens the name. Where
/// the path has separators or a drive prefix, how it splits into
/// components depends on the platform, and the contract says only that an
/// extension holds no `.`.
#[verifier::external_body]
fn path_extension(path: &str) -> (r: Option<&str>)
    ensures
        r matches Some(e) ==> !has_char(e@, '.'),
        is_portable_file_name(path@) ==> opt_view(r) == extension_spec(path@),
{
    match Path::new(path).extension() {
        Some(e) => e.to_str(),
        None => None,
    }
}

fn eq_lit(a: &[char], b: &str) -> (r: bool)
    ensures
        r == (a@ == b@),
{
    let bc = chars_of(b);
    chars_eq(a, bc.as_slice())
}

/// Detect the language from an optional file extension and the text.
pub fn detect_language_from_extension(extension: Option<&str>, source: &str) -> (r: SourceLanguage)
    ensures
        r == detect_spec(opt_view(extension), source@),
{
    match extension {
        Some(e) => {
            let ec = chars_of(e);
            let l = to_ascii_lowercase(ec.as_slice());
            let ls = l.as_slice();
            if eq_lit(ls, "ts") {
                return SourceLanguage::TypeScript;
            } else if eq_lit(ls, "tss") {
                return SourceLanguage::Tss;
            } else if eq_lit(ls, "inf") || eq_lit(ls, "infra") {
                return SourceLanguage::Infra;
            } else if eq_lit(ls, "js") || eq_lit(ls, "mjs") || eq_lit(ls, "cjs") {
                return SourceLanguage::JavaScript;
            }
        },
        None => {},
    }
    let chars = chars_of(source);
    let trimmed = trim_start(chars.as_slice());
    if starts_with_str(trimmed, "getlib ") || starts_with_str(trimmed, "PACK") {
        SourceLanguage::Infra
    } else {
        SourceLanguage::JavaScript
    }
}

/// Detect the language of a source from its path's extension and its text.
/// The path is the file's path as text; for a portable file name the
/// extension is [`extension_spec`] of it.
pub fn detect_language(path: Option<&str>, source: &str) -> (r: SourceLanguage)
    ensures
        path is None ==> r == detect_spec(None, source@),
        path matches Some(p) ==> (is_portable_file_name(p@) ==> r == detect_spec(
            extension_spec(p@),
            source@,
        )),
        exists|ext: Option<Seq<char>>|
            #![auto]
            r == detect_spec(ext, source@) && (ext matches Some(e) ==> !has_char(e, '.')),
{
    let extension = match path {
        Some(p) => path_extension(p),
        None => None,
    };
    let r = detect_language_from_extension(extension, source);
    assert(r == detect_spec(opt_view(extension), source@) && (opt_view(extension) matches Some(e)
        ==> !has_char(e, '.')));
    r
}

/// The JavaScript for a source in `language`, or the error that stops it.
pub open spec fn lower_spec(language: SourceLanguage, source: Seq<char>) -> Result<Seq<char>, Seq<char>> {
    match language {
        SourceLanguage::JavaScript => Ok(source),
        SourceLanguage::TypeScript | SourceLanguage::Tss => Ok(lower_typescript_spec(source)),
        SourceLanguage::Infra => lower_infra_spec(source),
    }
}

pub open spec fn result_view(r: Result<String, String>) -> Result<Seq<char>, Seq<char>> {
    match r {
        Ok(s) => Ok(s@),
        Err(e) => Err(e@),
    }
}

/// Lower a source written in `language` to JavaScript: JavaScript is kept,
/// TypeScript and TSS are lowered line by line, INFRA is compiled to a
/// closure.
pub fn lower_source(language: SourceLanguage, source: &str) -> (r: Result<String, String>)
    ensures
        result_view(r) == lower_spec(language, source@),
{
    match language {
        SourceLanguage::TypeScript | SourceLanguage::Tss => {
            let js = lower_typescript_chars(source);
            Ok(string_from_chars(js.as_slice()))
        },
        SourceLanguage::JavaScript => Ok(source.to_owned()),
        SourceLanguage::Infra => lower_infra(source),
    }
}

/// Lower a source to JavaScript after detecting its language
/// ([`detect_language`]); the lowering is [`lower_source`] for the language
/// detected.
pub fn lower_to_javascript(path: Option<&str>, source: &str) -> (r: Result<String, String>)
    ensures
        path is None ==> result_view(r) == lower_spec(detect_spec(None, source@), source@),
        path matches Some(p) ==> (is_portable_file_name(p@) ==> result_view(r) == lower_spec(
            detect_spec(extension_spec(p@), source@),
            source@,
        )),
        exists|ext: Option<Seq<char>>|
            #![auto]
            result_view(r) == lower_spec(detect_spec(ext, source@), source@) && (ext matches Some(e)
                ==> !has_char(e, '.')),
{
    let language = detect_language(path, source);
    let r = lower_source(language, source);
    proof {
        let ext = choose|ext: Option<Seq<char>>|
            #![auto]
            language == detect_spec(ext, source@) && (ext matches Some(e) ==> !has_char(e, '.'));
        assert(result_view(r) == lower_spec(detect_spec(ext, source@), source@));
    }
    r
}

/// Extension matching ignores ASCII case: an extension written in upper
/// case names the same language.
pub proof fn lemma_extension_case_insensitive(ext: Seq<char>)
    ensures
        language_for_extension(ascii_upper(ext)) == language_for_extension(ext),
{
    assert(ascii_lower(ascii_upper(ext)) =~= ascii_lower(ext)) by {
        assert forall|i: int| 0 <= i < ext.len() implies ascii_lower_char(ascii_upper_char(ext[i]))
            == ascii_lower_char(ext[i]) by {
            let c = ext[i];
            assert(ascii_lower(ascii_upper(ext))[i] == ascii_lower_char(ascii_upper_char(c)));
        }
    }
}

/// Without a path, a source that does not open with an INFRA header is
/// JavaScript and comes back unchanged.
pub proof fn lemma_plain_javascript_unchanged(source: Seq<char>)
    requires
        !starts_with(trim_start_spec(source), "getlib "@),
        !starts_with(trim_start_spec(source), "PACK"@),
    ensures
        lower_spec(detect_spec(None, source), source) == Ok::<Seq<char>, Seq<char>>(source),
{
}

} // verus!
