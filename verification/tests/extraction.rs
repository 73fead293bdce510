use md_variables::extract::extract;
use md_variables::text::{is_space_char, lines_of, to_chars, trim_range};
use md_variables::{Variable, VariableProcessor};

fn pairs(vars: &[Variable]) -> Vec<(String, String)> {
    vars.iter().map(|v| (v.name.clone(), v.value.clone())).collect()
}

fn pair(name: &str, value: &str) -> (String, String) {
    (name.to_string(), value.to_string())
}

#[test]
fn declaration_line_is_extracted_and_stripped() {
    let store = VariableProcessor::new();
    let (vars, text) = store.parse_variables_from_markdown("line1\n<!-- @var a: 1 -->\nline2");
    assert_eq!(pairs(&vars), vec![pair("a", "1")]);
    assert_eq!(text, "line1\nline2");
}

#[test]
fn declaration_without_colon_is_dropped_silently() {
    let store = VariableProcessor::new();
    let (vars, text) = store.parse_variables_from_markdown("<!-- @var noColon -->");
    assert!(vars.is_empty());
    assert_eq!(text, "");
    let (vars, text) = store.parse_variables_from_markdown("a\n<!-- @var noColon -->\nb");
    assert!(vars.is_empty());
    assert_eq!(text, "a\nb");
}

#[test]
fn include_line_is_dropped_without_effect() {
    let (vars, text) = extract("top\n<!-- @include: other.md -->\nbottom");
    assert!(vars.is_empty());
    assert_eq!(text, "top\nbottom");
    let (vars, text) = extract("<!-- @include:x: y -->");
    assert!(vars.is_empty());
    assert_eq!(text, "");
}

#[test]
fn body_is_split_at_first_colon_and_trimmed() {
    let (vars, text) = extract("<!-- @var url :  http://example.org:80/x  -->");
    assert_eq!(pairs(&vars), vec![pair("url", "http://example.org:80/x")]);
    assert_eq!(text, "");
    let (vars, _) = extract("<!-- @var : -->");
    assert_eq!(pairs(&vars), vec![pair("", "")]);
    let (vars, _) = extract("<!-- @var name: -->");
    assert_eq!(pairs(&vars), vec![pair("name", "")]);
}

#[test]
fn marker_is_recognised_on_the_trimmed_line() {
    let (vars, text) = extract("  \t<!-- @var a: 1 -->  \nkeep  ");
    assert_eq!(pairs(&vars), vec![pair("a", "1")]);
    assert_eq!(text, "keep  ");
}

#[test]
fn overlapping_opening_and_closing_declares_nothing() {
    let (vars, text) = extract("x\n<!-- @var -->\ny");
    assert!(vars.is_empty());
    assert_eq!(text, "x\ny");
}

#[test]
fn near_markers_pass_through() {
    let doc = "<!-- @var a: 1-->\n<!--@var a: 1 -->\n<!-- @variable -->x\n<!-- @include other -->";
    let (vars, text) = extract(doc);
    assert!(vars.is_empty());
    assert_eq!(text, doc);
}

#[test]
fn repeated_names_are_all_listed_in_order() {
    let (vars, text) = extract("<!-- @var a: 1 -->\n<!-- @var b: 2 -->\n<!-- @var a: 3 -->");
    assert_eq!(pairs(&vars), vec![pair("a", "1"), pair("b", "2"), pair("a", "3")]);
    assert_eq!(text, "");
}

#[test]
fn line_endings_are_normalised_to_line_feeds() {
    let (vars, text) = extract("a\r\nb\r\n\r\nc\n");
    assert!(vars.is_empty());
    assert_eq!(text, "a\nb\n\nc");
    let (_, text) = extract("tail\r");
    assert_eq!(text, "tail\r");
    let (_, text) = extract("");
    assert_eq!(text, "");
    let (_, text) = extract("\n\n");
    assert_eq!(text, "\n");
}

#[test]
fn cleaned_text_holds_nothing_more_to_extract() {
    let docs = [
        "line1\n<!-- @var a: 1 -->\nline2",
        "<!-- @var a: 1 -->\n\n<!-- @include: f -->\ntext {{a}}\r\n",
        "a\r\r\n<!-- @var x: y -->\nb\n\n",
        "",
    ];
    for doc in docs {
        let (_, cleaned) = extract(doc);
        let (vars, again) = extract(&cleaned);
        assert!(vars.is_empty());
        let lines: Vec<&str> = cleaned.lines().collect();
        assert_eq!(again, lines.join("\n"));
    }
    let (_, cleaned) = extract("line1\n<!-- @var a: 1 -->\nline2");
    let (_, again) = extract(&cleaned);
    assert_eq!(again, cleaned);
}

#[test]
fn lines_agree_with_the_standard_library() {
    let samples = ["", "a", "a\n", "a\nb", "a\r\nb", "\n", "\r\n", "a\r", "a\r\n\r", "\n\na\n\n", "é\nü\r\n"];
    for s in samples {
        let got: Vec<String> = lines_of(&to_chars(s)).iter().map(|l| l.iter().collect()).collect();
        let want: Vec<String> = s.lines().map(|l| l.to_string()).collect();
        assert_eq!(got, want);
    }
}

#[test]
fn trimming_agrees_with_the_standard_library() {
    let samples = ["", " ", "  a  ", "\t\r\n a b \u{3000}", "\u{a0}x\u{2003}", "x", " \u{200b} "];
    for s in samples {
        let chars = to_chars(s);
        let (a, b) = trim_range(&chars, 0, chars.len());
        let got: String = chars[a..b].iter().collect();
        assert_eq!(got, s.trim());
    }
}

#[test]
fn white_space_agrees_with_the_standard_library() {
    let mut code: u32 = 0;
    while code <= 0x10ffff {
        if let Some(c) = char::from_u32(code) {
            assert_eq!(is_space_char(c), c.is_whitespace());
        }
        code += 1;
    }
}
