//! Local pre-execution security gate for downloaded or injected source code.
//!
//! A defense-in-depth layer, not a malware detector: it runs the execution
//! sandbox preflight, then looks for known execution sinks in the source
//! after whitespace is removed and letters are lowercased.

use vstd::prelude::*;
use vstd::string::StringSliceAdditionalSpecFns;
use crate::execution_sandbox::{preflight, preflight_spec, SandboxAction};
use crate::text::{char_lowercase, chars_of, contains_str, is_whitespace, is_whitespace_spec, seq_contains, to_lowercase};

verus! {

#[derive(Clone, Copy, Debug, PartialEq, Eq)]
pub enum ScanAction {
    Allow,
    Block,
}

#[derive(Clone, Copy, Debug, PartialEq, Eq)]
pub struct Finding {
    pub rule: &'static str,
    pub reason: &'static str,
}

#[derive(Clone, Debug, PartialEq, Eq)]
pub struct ScanResult {
    pub action: ScanAction,
    pub findings: Vec<Finding>,
}

pub const SANDBOX_FALLBACK_REASON: &'static str = "Source rejected by the execution sandbox";

/// The source with whitespace removed and every character replaced by its
/// lowercase mapping.
pub open spec fn normalize_spec(s: Seq<char>) -> Seq<char>
    decreases s.len(),
{
    if s.len() == 0 {
        Seq::empty()
    } else {
        normalize_spec(s.drop_last()) + if is_whitespace_spec(s.last()) {
            Seq::empty()
        } else {
            char_lowercase(s.last())
        }
    }
}

pub open spec fn finding_if(hit: bool, rule: &'static str, reason: &'static str) -> Seq<Finding> {
    if hit {
        seq![Finding { rule: rule, reason: reason }]
    } else {
        Seq::empty()
    }
}

/// The finding of the sandbox preflight on the source bytes, if it blocks.
pub open spec fn sandbox_findings(bytes: Seq<u8>) -> Seq<Finding> {
    let verdict = preflight_spec(bytes);
    finding_if(
        verdict.action == SandboxAction::Block,
        "execution-sandbox",
        match verdict.reason {
            Some(r) => r,
            None => SANDBOX_FALLBACK_REASON,
        },
    )
}

/// Findings of the dynamic-code and URL-scheme rules.
#[verifier::opaque]
pub open spec fn code_findings(n: Seq<char>) -> Seq<Finding> {
    finding_if(seq_contains(n, "eval("@), "dynamic-code", "Dynamic code evaluation is blocked")
    + finding_if(seq_contains(n, "function("@), "dynamic-code", "Dynamic Function construction is blocked")
    + finding_if(seq_contains(n, "javascript:"@), "javascript-url", "javascript: URLs are blocked")
}

/// Findings of the HTML-injection rules.
#[verifier::opaque]
pub open spec fn html_findings(n: Seq<char>) -> Seq<Finding> {
    finding_if(seq_contains(n, ".innerhtml="@), "html-injection", "innerHTML assignment is blocked by the pre-execution policy")
    + finding_if(seq_contains(n, ".outerhtml="@), "html-injection", "outerHTML assignment is blocked by the pre-execution policy")
    + finding_if(seq_contains(n, "insertadjacenthtml("@), "html-injection", "insertAdjacentHTML is blocked by the pre-execution policy")
    + finding_if(seq_contains(n, "document.write("@), "html-injection", "document.write is blocked by the pre-execution policy")
}

/// Findings of the script-URL rules.
#[verifier::opaque]
pub open spec fn script_url_findings(n: Seq<char>) -> Seq<Finding> {
    finding_if(seq_contains(n, "data:text/javascript"@), "script-url", "data: JavaScript URLs are blocked")
    + finding_if(seq_contains(n, "blob:"@), "script-url", "Blob URLs are blocked in source execution")
}

/// Findings of the native-escape rules.
#[verifier::opaque]
pub open spec fn native_findings(n: Seq<char>) -> Seq<Finding> {
    finding_if(seq_contains(n, "child_process"@), "native-escape", "Native process APIs are unavailable to page code")
    + finding_if(seq_contains(n, "require('child_process')"@), "native-escape", "Native process APIs are unavailable to page code")
    + finding_if(seq_contains(n, "require(\"child_process\")"@), "native-escape", "Native process APIs are unavailable to page code")
    + finding_if(seq_contains(n, "pyinstaller"@), "native-escape", "External compiler execution is blocked")
    + finding_if(seq_contains(n, "subprocess"@), "native-escape", "External process execution is blocked")
}

/// Finding of the script-element rule.
#[verifier::opaque]
pub open spec fn script_element_findings(n: Seq<char>) -> Seq<Finding> {
    finding_if(
        seq_contains(n, "createelement('script')"@) || seq_contains(n, "createelement(\"script\")"@),
        "script-injection",
        "Dynamic script-element creation is blocked by the pre-execution policy",
    )
}

/// The findings of the signature rules on the normalized source, in rule order.
pub open spec fn pattern_findings(n: Seq<char>) -> Seq<Finding> {
    code_findings(n) + html_findings(n) + script_url_findings(n) + native_findings(n)
        + script_element_findings(n)
}

/// All findings for a source: the sandbox finding first, then the rules.
pub open spec fn scan_findings(chars: Seq<char>, bytes: Seq<u8>) -> Seq<Finding> {
    sandbox_findings(bytes) + pattern_findings(normalize_spec(chars))
}

pub open spec fn action_for(findings: Seq<Finding>) -> ScanAction {
    if findings.len() == 0 {
        ScanAction::Allow
    } else {
        ScanAction::Block
    }
}

/// Remove whitespace and lowercase every character.
pub fn normalize(source: &str) -> (r: Vec<char>)
    ensures
        r@ == normalize_spec(source@),
{
    let chars = chars_of(source);
    let mut out: Vec<char> = Vec::new();
    let mut i: usize = 0;
    while i < chars.len()
        invariant
            chars@ == source@,
            i <= chars@.len(),
            out@ == normalize_spec(chars@.take(i as int)),
        decreases chars@.len() - i,
    {
        let c = chars[i];
        assert(chars@.take(i + 1).drop_last() =~= chars@.take(i as int));
        if !is_whitespace(c) {
            let mut lower = to_lowercase(c);
            out.append(&mut lower);
        }
        i = i + 1;
    }
    assert(chars@.take(chars@.len() as int) =~= chars@);
    out
}

/// Record a finding for `rule` when `needle` occurs in the normalized source.
pub fn match_pattern(
    normalized: &[char],
    findings: &mut Vec<Finding>,
    rule: &'static str,
    needle: &str,
    reason: &'static str,
)
    ensures
        final(findings)@ == old(findings)@ + finding_if(seq_contains(normalized@, needle@), rule, reason),
{
    if contains_str(normalized, needle) {
        findings.push(Finding { rule, reason });
    }
}

/// Record the findings of the dynamic-code and URL-scheme rules.
fn apply_code_rules(n: &[char], findings: &mut Vec<Finding>)
    ensures
        final(findings)@ == old(findings)@ + code_findings(n@),
{
    reveal(code_findings);
    let ghost start = findings@;
    match_pattern(n, findings, "dynamic-code", "eval(", "Dynamic code evaluation is blocked");
    match_pattern(n, findings, "dynamic-code", "function(", "Dynamic Function construction is blocked");
    match_pattern(n, findings, "javascript-url", "javascript:", "javascript: URLs are blocked");
    assert(findings@ =~= start + code_findings(n@));
}

/// Record the findings of the HTML-injection rules.
fn apply_html_rules(n: &[char], findings: &mut Vec<Finding>)
    ensures
        final(findings)@ == old(findings)@ + html_findings(n@),
{
    reveal(html_findings);
    let ghost start = findings@;
    match_pattern(n, findings, "html-injection", ".innerhtml=", "innerHTML assignment is blocked by the pre-execution policy");
    match_pattern(n, findings, "html-injection", ".outerhtml=", "outerHTML assignment is blocked by the pre-execution policy");
    match_pattern(n, findings, "html-injection", "insertadjacenthtml(", "insertAdjacentHTML is blocked by the pre-execution policy");
    match_pattern(n, findings, "html-injection", "document.write(", "document.write is blocked by the pre-execution policy");
    assert(findings@ =~= start + html_findings(n@));
}

/// Record the findings of the script-URL rules.
fn apply_script_url_rules(n: &[char], findings: &mut Vec<Finding>)
    ensures
        final(findings)@ == old(findings)@ + script_url_findings(n@),
{
    reveal(script_url_findings);
    let ghost start = findings@;
    match_pattern(n, findings, "script-url", "data:text/javascript", "data: JavaScript URLs are blocked");
    match_pattern(n, findings, "script-url", "blob:", "Blob URLs are blocked in source execution");
    assert(findings@ =~= start + script_url_findings(n@));
}

/// Record the findings of the native-escape rules.
fn apply_native_rules(n: &[char], findings: &mut Vec<Finding>)
    ensures
        final(findings)@ == old(findings)@ + native_findings(n@),
{
    reveal(native_findings);
    let ghost start = findings@;
    match_pattern(n, findings, "native-escape", "child_process", "Native process APIs are unavailable to page code");
    match_pattern(n, findings, "native-escape", "require('child_process')", "Native process APIs are unavailable to page code");
    match_pattern(n, findings, "native-escape", "require(\"child_process\")", "Native process APIs are unavailable to page code");
    match_pattern(n, findings, "native-escape", "pyinstaller", "External compiler execution is blocked");
    match_pattern(n, findings, "native-escape", "subprocess", "External process execution is blocked");
    assert(findings@ =~= start + native_findings(n@));
}

/// Record the finding of the script-element rule.
fn apply_script_element_rule(n: &[char], findings: &mut Vec<Finding>)
    ensures
        final(findings)@ == old(findings)@ + script_element_findings(n@),
{
    reveal(script_element_findings);
    let single = contains_str(n, "createelement('script')");
    let double = contains_str(n, "createelement(\"script\")");
    if single || double {
        findings.push(Finding {
            rule: "script-injection",
            reason: "Dynamic script-element creation is blocked by the pre-execution policy",
        });
    }
}

/// Record the findings of every signature rule, in rule order.
fn apply_signature_rules(n: &[char], findings: &mut Vec<Finding>)
    ensures
        final(findings)@ == old(findings)@ + pattern_findings(n@),
{
    let ghost start = findings@;
    apply_code_rules(n, findings);
    apply_html_rules(n, findings);
    apply_script_url_rules(n, findings);
    apply_native_rules(n, findings);
    apply_script_element_rule(n, findings);
    assert(findings@ =~= start + pattern_findings(n@));
}

/// Run the sandbox preflight and the signature rules on `source`. The source
/// is blocked exactly when some finding was recorded.
pub fn scan_source(source: &str) -> (r: ScanResult)
    ensures
        r.findings@ == scan_findings(source@, source.spec_bytes()),
        r.action == action_for(r.findings@),
{
    let mut findings: Vec<Finding> = Vec::new();

    let verdict = preflight(source);
    if let SandboxAction::Block = verdict.action {
        let reason = match verdict.reason {
            Some(r) => r,
            None => SANDBOX_FALLBACK_REASON,
        };
        findings.push(Finding { rule: "execution-sandbox", reason });
    }
    assert(findings@ =~= sandbox_findings(source.spec_bytes()));
    let ghost before = findings@;

    let normalized = normalize(source);
    apply_signature_rules(normalized.as_slice(), &mut findings);
    assert(findings@ =~= before + pattern_findings(normalized@));

    let action = if findings.len() == 0 { ScanAction::Allow } else { ScanAction::Block };
    ScanResult { action, findings }
}

/// Every character is whitespace.
pub open spec fn all_whitespace(w: Seq<char>) -> bool {
    forall|i: int| 0 <= i < w.len() ==> is_whitespace_spec(#[trigger] w[i])
}

/// Normalizing a concatenation normalizes each part.
pub proof fn lemma_normalize_concat(a: Seq<char>, b: Seq<char>)
    ensures
        normalize_spec(a + b) == normalize_spec(a) + normalize_spec(b),
    decreases b.len(),
{
    if b.len() == 0 {
        assert(a + b =~= a);
        assert(normalize_spec(a) + normalize_spec(b) =~= normalize_spec(a));
    } else {
        assert((a + b).drop_last() =~= a + b.drop_last());
        assert((a + b).last() == b.last());
        lemma_normalize_concat(a, b.drop_last());
        let piece = if is_whitespace_spec(b.last()) {
            Seq::<char>::empty()
        } else {
            char_lowercase(b.last())
        };
        assert(normalize_spec(a + b) == normalize_spec(a + b.drop_last()) + piece);
        assert(normalize_spec(b) == normalize_spec(b.drop_last()) + piece);
        assert(normalize_spec(a) + normalize_spec(b.drop_last()) + piece =~= normalize_spec(a) + (
        normalize_spec(b.drop_last()) + piece));
    }
}

proof fn lemma_normalize_whitespace(w: Seq<char>)
    requires
        all_whitespace(w),
    ensures
        normalize_spec(w) == Seq::<char>::empty(),
    decreases w.len(),
{
    if w.len() > 0 {
        assert(is_whitespace_spec(w[w.len() - 1]));
        assert(all_whitespace(w.drop_last()));
        lemma_normalize_whitespace(w.drop_last());
        assert(normalize_spec(w) =~= Seq::<char>::empty());
    }
}

/// Whitespace inserted anywhere in a source changes none of the signature
/// findings.
pub proof fn lemma_whitespace_insensitive(a: Seq<char>, w: Seq<char>, b: Seq<char>)
    requires
        all_whitespace(w),
    ensures
        pattern_findings(normalize_spec(a + w + b)) == pattern_findings(normalize_spec(a + b)),
{
    lemma_normalize_concat(a + w, b);
    lemma_normalize_concat(a, w);
    lemma_normalize_concat(a, b);
    lemma_normalize_whitespace(w);
    assert(normalize_spec(a) + Seq::<char>::empty() =~= normalize_spec(a));
    assert(normalize_spec(a + w + b) == normalize_spec(a + b));
}

/// Two characters with the same lowercase mapping (such as the two cases
/// of an ASCII letter) are interchangeable in a source: swapping one for
/// the other changes none of the signature findings.
pub proof fn lemma_same_lowercase_interchangeable(a: Seq<char>, c: char, d: char, b: Seq<char>)
    requires
        char_lowercase(c) == char_lowercase(d),
        !is_whitespace_spec(c),
        !is_whitespace_spec(d),
    ensures
        pattern_findings(normalize_spec(a + seq![c] + b)) == pattern_findings(normalize_spec(a + seq![d] + b)),
{
    lemma_normalize_concat(a + seq![c], b);
    lemma_normalize_concat(a, seq![c]);
    lemma_normalize_concat(a + seq![d], b);
    lemma_normalize_concat(a, seq![d]);
    assert(seq![c].drop_last() =~= Seq::<char>::empty());
    assert(seq![d].drop_last() =~= Seq::<char>::empty());
    assert(seq![c].last() == c && seq![d].last() == d);
    assert(normalize_spec(Seq::<char>::empty()) =~= Seq::<char>::empty());
    assert(Seq::<char>::empty() + char_lowercase(c) =~= char_lowercase(c));
    assert(Seq::<char>::empty() + char_lowercase(d) =~= char_lowercase(d));
    assert(normalize_spec(seq![c]) =~= char_lowercase(c));
    assert(normalize_spec(seq![d]) =~= char_lowercase(d));
}

/// A source the sandbox preflight blocks is blocked by the scanner, and the
/// sandbox's finding comes first.
pub proof fn lemma_sandbox_block_blocks_scan(chars: Seq<char>, bytes: Seq<u8>)
    requires
        preflight_spec(bytes).action == SandboxAction::Block,
    ensures
        action_for(scan_findings(chars, bytes)) == ScanAction::Block,
        scan_findings(chars, bytes)[0].rule == "execution-sandbox",
{
    assert(sandbox_findings(bytes).len() == 1);
    assert(scan_findings(chars, bytes)[0] == sandbox_findings(bytes)[0]);
}

/// A source whose normalized text creates a script element, with either
/// kind of quote around `script`, is blocked, and its last finding is the
/// script-injection one.
pub proof fn lemma_script_element_blocked(chars: Seq<char>, bytes: Seq<u8>)
    requires
        seq_contains(normalize_spec(chars), "createelement('script')"@) || seq_contains(
            normalize_spec(chars),
            "createelement(\"script\")"@,
        ),
    ensures
        action_for(scan_findings(chars, bytes)) == ScanAction::Block,
        scan_findings(chars, bytes).len() > 0,
        scan_findings(chars, bytes).last().rule@ == "script-injection"@,
{
    reveal(script_element_findings);
    let n = normalize_spec(chars);
    assert(script_element_findings(n).len() == 1);
    assert(pattern_findings(n).last() == script_element_findings(n)[0]);
    assert(scan_findings(chars, bytes).last() == script_element_findings(n)[0]);
}

/// The scanner blocks a source exactly when the sandbox preflight blocks it
/// or its normalized text `n` holds one of the execution sinks the policy
/// names: `eval(`, `function(`, `javascript:`, `.innerhtml=`,
/// `.outerhtml=`, `insertadjacenthtml(`, `document.write(`,
/// `data:text/javascript`, `blob:`, `child_process` (alone or required),
/// `pyinstaller`, `subprocess`, or a script element created with either
/// kind of quote.
pub proof fn lemma_scan_blocks_exactly(chars: Seq<char>, bytes: Seq<u8>, n: Seq<char>)
    requires
        n == normalize_spec(chars),
    ensures
        action_for(scan_findings(chars, bytes)) == ScanAction::Block <==> (preflight_spec(bytes).action
            == SandboxAction::Block || seq_contains(n, "eval("@) || seq_contains(n, "function("@)
            || seq_contains(n, "javascript:"@) || seq_contains(n, ".innerhtml="@) || seq_contains(
            n,
            ".outerhtml="@,
        ) || seq_contains(n, "insertadjacenthtml("@) || seq_contains(n, "document.write("@) || seq_contains(
            n,
            "data:text/javascript"@,
        ) || seq_contains(n, "blob:"@) || seq_contains(n, "child_process"@) || seq_contains(
            n,
            "require('child_process')"@,
        ) || seq_contains(n, "require(\"child_process\")"@) || seq_contains(n, "pyinstaller"@)
            || seq_contains(n, "subprocess"@) || seq_contains(n, "createelement('script')"@) || seq_contains(
            n,
            "createelement(\"script\")"@,
        )),
{
    reveal(code_findings);
    reveal(html_findings);
    reveal(script_url_findings);
    reveal(native_findings);
    reveal(script_element_findings);
}

} // verus!
