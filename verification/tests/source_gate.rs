use bumble_bee::code_security_scanner::{normalize, scan_source, ScanAction};
use bumble_bee::execution_sandbox::{
    preflight, SandboxAction, MAX_LINE_BYTES, MAX_NESTING_HINT, MAX_SOURCE_BYTES,
};

#[test]
fn safe_source_is_allowed() {
    assert_eq!(scan_source("const x = 1; console.log(x);").action, ScanAction::Allow);
}

#[test]
fn eval_is_blocked() {
    assert_eq!(scan_source("eval(userInput);").action, ScanAction::Block);
}

#[test]
fn html_execution_sink_is_blocked() {
    assert_eq!(scan_source("node.innerHTML = input;").action, ScanAction::Block);
}

#[test]
fn sandbox_limits_are_enforced() {
    let source = "x".repeat(MAX_SOURCE_BYTES + 1);
    assert_eq!(scan_source(&source).action, ScanAction::Block);
}

#[test]
fn normal_source_is_allowed() {
    assert_eq!(preflight("const x = {a: 1};").action, SandboxAction::Allow);
}

#[test]
fn oversized_source_is_blocked() {
    let source = "x".repeat(MAX_SOURCE_BYTES + 1);
    assert_eq!(preflight(&source).action, SandboxAction::Block);
}

#[test]
fn excessive_nesting_is_blocked() {
    let source = "(".repeat(MAX_NESTING_HINT + 1);
    assert_eq!(preflight(&source).action, SandboxAction::Block);
}

#[test]
fn nesting_at_the_limit_is_allowed() {
    let source = "(".repeat(MAX_NESTING_HINT);
    assert_eq!(preflight(&source).action, SandboxAction::Allow);
    let balanced = "()".repeat(MAX_NESTING_HINT * 4);
    assert_eq!(preflight(&balanced).action, SandboxAction::Allow);
}

#[test]
fn preflight_reasons_name_the_limit() {
    let big = "x".repeat(MAX_SOURCE_BYTES + 1);
    assert_eq!(preflight(&big).reason, Some("Source exceeds the execution sandbox size limit"));
    let long_line = format!("a\n{}\nb", "y".repeat(MAX_LINE_BYTES + 1));
    let verdict = preflight(&long_line);
    assert_eq!(verdict.action, SandboxAction::Block);
    assert_eq!(verdict.reason, Some("A source line exceeds the execution sandbox line limit"));
    let deep = "[".repeat(MAX_NESTING_HINT + 1);
    assert_eq!(preflight(&deep).reason, Some("Source nesting exceeds the execution sandbox limit"));
    let ok_line = format!("{}\r\n", "z".repeat(MAX_LINE_BYTES));
    assert_eq!(preflight(&ok_line).action, SandboxAction::Allow);
    assert_eq!(preflight("fine").reason, None);
}

#[test]
fn sandbox_finding_comes_first() {
    let source = format!("eval(1);{}", "(".repeat(MAX_NESTING_HINT + 1));
    let result = scan_source(&source);
    assert_eq!(result.action, ScanAction::Block);
    assert_eq!(result.findings[0].rule, "execution-sandbox");
    assert_eq!(result.findings[0].reason, "Source nesting exceeds the execution sandbox limit");
    assert_eq!(result.findings[1].rule, "dynamic-code");
    assert_eq!(result.findings.len(), 2);
}

#[test]
fn whitespace_and_case_do_not_hide_signatures() {
    assert_eq!(scan_source("ev al (x)").action, ScanAction::Block);
    assert_eq!(scan_source("EVAL(x)").action, ScanAction::Block);
    assert_eq!(scan_source("x.InnerHTML\n=\ty").action, ScanAction::Block);
    assert_eq!(scan_source("evaluate(x)").action, ScanAction::Allow);
}

#[test]
fn every_rule_reports_its_reason() {
    let r = scan_source("document.createElement('script'); require('child_process'); location='javascript:x'");
    let rules: Vec<&str> = r.findings.iter().map(|f| f.rule).collect();
    assert_eq!(rules, vec!["javascript-url", "native-escape", "native-escape", "script-injection"]);
    assert_eq!(r.findings[3].reason, "Dynamic script-element creation is blocked by the pre-execution policy");
    let urls = scan_source("src = 'blob:x'; other = 'data:text/javascript,1'");
    let rules: Vec<&str> = urls.findings.iter().map(|f| f.rule).collect();
    assert_eq!(rules, vec!["script-url", "script-url"]);
    assert_eq!(urls.findings[0].reason, "data: JavaScript URLs are blocked");
    let html = scan_source("a.outerHTML=b; el.insertAdjacentHTML('x'); document.write(1); new Function('x')");
    assert_eq!(html.findings.len(), 4);
    assert_eq!(html.findings[0].reason, "Dynamic Function construction is blocked");
    let native = scan_source("pyinstaller; subprocess");
    assert_eq!(native.findings.len(), 2);
    assert_eq!(native.findings[1].reason, "External process execution is blocked");
}

#[test]
fn normalize_drops_whitespace_and_lowercases() {
    let n: String = normalize(" A b\u{3000}C\n").into_iter().collect();
    assert_eq!(n, "abc");
    let s: String = normalize("ÀÉ").into_iter().collect();
    assert_eq!(s, "àé");
}
