use bumble_bee::infra::{
    extract_angle_after, extract_parenthesized, extract_percent, infra_expression_to_js, is_identifier,
    js_string, lower_infra, lower_infra_ui,
};
use bumble_bee::language_engine::{detect_language, detect_language_from_extension, lower_to_javascript, SourceLanguage};
use bumble_bee::typescript::{lower_typescript, strip_parameter_and_variable_types, strip_typescript_assertions};

fn chars(s: &str) -> Vec<char> {
    s.chars().collect()
}

fn text(v: Vec<char>) -> String {
    v.into_iter().collect()
}

#[test]
fn detects_extensions() {
    assert_eq!(detect_language(Some("a.ts"), ""), SourceLanguage::TypeScript);
    assert_eq!(detect_language(Some("a.tss"), ""), SourceLanguage::Tss);
    assert_eq!(detect_language(Some("a.infra"), ""), SourceLanguage::Infra);
    assert_eq!(detect_language(Some("a.js"), ""), SourceLanguage::JavaScript);
}

#[test]
fn lowers_basic_typescript() {
    let js = lower_to_javascript(Some("a.ts"), "const x: number = 3;\n").unwrap();
    assert!(js.contains("const x = 3;"));
}

#[test]
fn lowers_infra_without_desktop_dependencies() {
    let infra = "getlib BASIC\ngetlib UI\nBG = %#ffffff%\nsend (hello)";
    let js = lower_to_javascript(Some("a.infra"), infra).unwrap();
    assert!(js.contains("document.body.style.backgroundColor"));
    assert!(js.contains("console.log"));
    assert!(!js.contains("tkinter"));
    assert!(!js.contains("subprocess"));
}

#[test]
fn detection_ignores_extension_case_and_reads_the_text() {
    assert_eq!(detect_language(Some("A.TS"), ""), SourceLanguage::TypeScript);
    assert_eq!(detect_language(Some("x.INF"), ""), SourceLanguage::Infra);
    assert_eq!(detect_language(Some("x.cjs"), "getlib A"), SourceLanguage::JavaScript);
    assert_eq!(detect_language(Some("x.txt"), "  getlib A"), SourceLanguage::Infra);
    assert_eq!(detect_language(None, "PACK app"), SourceLanguage::Infra);
    assert_eq!(detect_language(None, "getlibX"), SourceLanguage::JavaScript);
    assert_eq!(detect_language(Some("bundle.tar.ts"), ""), SourceLanguage::TypeScript);
    assert_eq!(detect_language(Some(".ts"), ""), SourceLanguage::JavaScript);
    assert_eq!(detect_language(Some(".ts"), "getlib A"), SourceLanguage::Infra);
    assert_eq!(detect_language(Some("noext"), "PACK x"), SourceLanguage::Infra);
    assert_eq!(detect_language(Some("trailing."), "var a;"), SourceLanguage::JavaScript);
    assert_eq!(detect_language_from_extension(Some("Mjs"), ""), SourceLanguage::JavaScript);
    assert_eq!(detect_language_from_extension(None, "var a;"), SourceLanguage::JavaScript);
}

#[test]
fn javascript_passes_through_unchanged() {
    let src = "let a: number = 1; // stays";
    assert_eq!(lower_to_javascript(None, src), Ok(src.to_string()));
}

#[test]
fn typescript_lowering_drops_types_interfaces_and_assertions() {
    let src = "interface A {\n  a: number;\n}\ntype T = string;\nlet y = x as Foo;\nfunction f(a: number, b: string): void {\n";
    let js = lower_typescript(src).unwrap();
    assert_eq!(js, "let y = x;\nfunction f(a, b) {\n");
    let obj = lower_typescript("const o = {a: 1};\nprivate readonly n = 2;").unwrap();
    assert_eq!(obj, "const o = {a: 1};\nn = 2;\n");
}

#[test]
fn typescript_lowering_keeps_any_characters() {
    assert_eq!(lower_to_javascript(Some("a.ts"), "let s = é as T;"), Ok("let s = é;\n".to_string()));
    assert_eq!(lower_typescript("// café\n").unwrap(), "// café\n");
    assert_eq!(text(strip_typescript_assertions(&chars("x = 'é' as T"))), "x = 'é'");
    assert_eq!(text(strip_typescript_assertions(&chars("s = 'abc\\"))), "s = 'abc\\");
}

#[test]
fn assertion_and_annotation_stripping() {
    assert_eq!(text(strip_typescript_assertions(&chars("let y = x as Foo;"))), "let y = x;");
    assert_eq!(text(strip_typescript_assertions(&chars("s = \"a as b\" as T"))), "s = \"a as b\"");
    assert_eq!(text(strip_parameter_and_variable_types(&chars("let n: Array<string> = m;"))), "let n = m;");
    assert_eq!(text(strip_parameter_and_variable_types(&chars("let n: Map<K, V>= m;"))), "let n, V>= m;");
    assert_eq!(text(strip_parameter_and_variable_types(&chars("x ? a: b.c;"))), "x ? a: b.c;");
    assert_eq!(text(strip_parameter_and_variable_types(&chars("public x: string;"))), "x;");
}

#[test]
fn infra_helpers() {
    assert_eq!(text(js_string(&chars("a\"b\\c\nd"))), "\"a\\\"b\\\\c\\nd\"");
    assert!(is_identifier(&chars("_a1")));
    assert!(!is_identifier(&chars("1a")));
    assert!(!is_identifier(&chars("")));
    assert!(!is_identifier(&chars("a-b")));
    assert_eq!(extract_percent(&chars("= %#fff% ")).map(text), Some("#fff".to_string()));
    assert_eq!(extract_percent(&chars("no percent")), None);
    assert_eq!(extract_parenthesized(&chars("x (hi ) y")).map(text), Some("hi".to_string()));
    assert_eq!(extract_parenthesized(&chars("x (hi")), None);
    assert_eq!(extract_angle_after(&chars("play frequency <880> for <200>"), "for"), Some(200));
    assert_eq!(extract_angle_after(&chars("play frequency <880> for <200>"), "play frequency"), Some(880));
    assert_eq!(extract_angle_after(&chars("AT X <-3>"), "AT X"), Some(-3));
    assert_eq!(extract_angle_after(&chars("AT X <abc>"), "AT X"), None);
}

#[test]
fn infra_expressions() {
    let memory = vec![chars("n")];
    let js = |v: &str| text(infra_expression_to_js(&chars(v), &memory));
    assert_eq!(js("(hi)"), "\"hi\"");
    assert_eq!(js("{TRUE}"), "true");
    assert_eq!(js("{no}"), "false");
    assert_eq!(js("<1+2>"), "1+2");
    assert_eq!(js("/a<b>\\"), "ab");
    assert_eq!(js("[a: 1, b: (x)]"), "{\"a\":1,\"b\":\"x\"}");
    assert_eq!(js("n"), "n");
    assert_eq!(js("3.5"), "3.5");
    assert_eq!(js("1e5"), "1e5");
    assert_eq!(js("hello"), "\"hello\"");
}

#[test]
fn infra_ui_button() {
    let cmd = "AT X <10> Y <20> CREATE <100X30> WITH TEXT (Hi) CLR=%red% TXT CLR=%blue%";
    let js = text(lower_infra_ui(&chars(cmd)).unwrap());
    assert_eq!(
        js,
        "{const e=document.createElement('button');e.textContent=\"Hi\";Object.assign(e.style,{position:'absolute',left:'10px',top:'20px',width:'100px',height:'30px',background:\"red\" ,color:\"blue\",border:'0'});document.body.appendChild(e);}\n"
    );
    assert_eq!(lower_infra_ui(&chars("AT X <1> Y <2>")), None);
}

#[test]
fn infra_programs_and_errors() {
    let js = lower_infra("# comment\nname = (Ann) // send name\nSAY (hi)\nplay frequency <880> for <100>\nend").unwrap();
    assert!(js.starts_with("// Bumble Bee INFRA engine\n(() => {\n\"use strict\";\n"));
    assert!(js.contains("let name=\"Ann\";\nconsole.log(name);\nconsole.log(\"hi\");\n__infraBeep(880, 100);\n"));
    assert!(js.ends_with("})();\n"));
    assert!(js.contains("g.gain.value=0.05;"));
    assert_eq!(
        lower_infra("PACK app"),
        Err("INFRA PACK is disabled inside the browser engine; it would invoke an external compiler".to_string())
    );
    assert_eq!(lower_infra("\n# only\nend"), Err("INFRA source contains no executable commands".to_string()));
    assert_eq!(lower_infra("launch rockets"), Err("INFRA syntax error: unsupported command: launch rockets".to_string()));
}

#[test]
fn plain_lines_are_kept() {
    assert_eq!(lower_typescript("let a = b + 1;\nf(x, y);").unwrap(), "let a = b + 1;\nf(x, y);\n");
}

#[test]
fn infra_fallbacks_and_clicks() {
    let js = lower_infra("BG = red").unwrap();
    assert!(js.contains("\"use strict\";\nlet BG=\"red\";\nfunction __infraBeep("));
    let js = lower_infra("send <1+2> // send [a: {true}]\nx = 5\nsend x").unwrap();
    assert!(js.contains("console.log(1+2);\nconsole.log({\"a\":true});\nlet x=5;\nconsole.log(x);\n"));
    let cmd = "AT X <1> Y <2> CREATE <3x4> WITH TEXT (t) CLICK= play frequency <300> for <50> CLR=%a% TXT CLR=%b%";
    assert_eq!(
        text(lower_infra_ui(&chars(cmd)).unwrap()),
        "{const e=document.createElement('button');e.textContent=\"t\";Object.assign(e.style,{position:'absolute',left:'1px',top:'2px',width:'3px',height:'4px',background:\"a\" ,color:\"b\",border:'0'});e.addEventListener('click',()=>__infraBeep(300,50));document.body.appendChild(e);}\n"
    );
    let memory: Vec<Vec<char>> = Vec::new();
    assert_eq!(text(infra_expression_to_js(&chars("[k:v, bad, z: {TRUE}]"), &memory)), "{\"k\":\"v\",\"z\":true}");
}

#[test]
fn typescript_declarations_and_literals() {
    assert_eq!(lower_typescript("declare interface X { a: number }\nlet k = 1;").unwrap(), "let k = 1;\n");
    assert_eq!(lower_typescript("type T = {\n a: number\n}").unwrap(), " a\n}\n");
    assert_eq!(
        text(strip_typescript_assertions(&chars("x = \"a\\\"b\" as T"))),
        "x = \"a\\\"b\""
    );
}

#[test]
fn object_literal_colons_are_kept() {
    let keep = |s: &str| text(strip_parameter_and_variable_types(&chars(s)));
    assert_eq!(keep("const o = {a: 1, b: 2};"), "const o = {a: 1, b: 2};");
    assert_eq!(keep("f({a: x, b: y});"), "f({a: x, b: y});");
    assert_eq!(keep("return [{k: v, w: z}];"), "return [{k: v, w: z}];");
    assert_eq!(keep("let p = {g(x: number) { return x; }};"), "let p = {g(x) { return x; }};");
    assert_eq!(keep("if (a) { let n: number = 1; }"), "if (a) { let n = 1; }");
}

#[test]
fn js_strings_read_back() {
    let value = "a\"b\\c\nd";
    let lit = text(js_string(&chars(value)));
    assert!(lit.starts_with('"') && lit.ends_with('"') && !lit.contains('\n'));
    let body: Vec<char> = lit[1..lit.len() - 1].chars().collect();
    let mut back = String::new();
    let mut i = 0;
    while i < body.len() {
        if body[i] == '\\' && i + 1 < body.len() {
            back.push(if body[i + 1] == 'n' { '\n' } else { body[i + 1] });
            i += 2;
        } else {
            back.push(body[i]);
            i += 1;
        }
    }
    assert_eq!(back, value);
}
