use md_variables::expand::expand_text;
use md_variables::{Variable, VariableProcessor};
use regex::{Captures, Regex};

fn var(name: &str, value: &str) -> Variable {
    Variable { name: name.to_string(), value: value.to_string() }
}

fn store_of(entries: &[(&str, &str)]) -> VariableProcessor {
    let mut store = VariableProcessor::new();
    for (name, value) in entries {
        store.set_global_variable(name.to_string(), value.to_string());
    }
    store
}

#[test]
fn local_scope_shadows_global_scope() {
    let store = store_of(&[("x", "g")]);
    assert_eq!(store.process_variables("<!-- @var x: l -->\n{{x}}"), "l");
    assert_eq!(expand_text("{{x}}", &vec![var("x", "l")], &store.get_all_global_variables()), "l");
    assert_eq!(store.process_variables("{{x}}"), "g");
}

#[test]
fn unknown_placeholder_is_left_as_it_is() {
    let store = VariableProcessor::new();
    assert_eq!(store.process_variables("{{missing}}"), "{{missing}}");
    assert_eq!(store.process_variables("a {{ missing }} b"), "a {{ missing }} b");
}

#[test]
fn expansion_is_not_recursive() {
    let store = store_of(&[("a", "{{b}}"), ("b", "deep")]);
    assert_eq!(store.process_variables("{{a}}"), "{{b}}");
    assert_eq!(store.process_variables("{{a}}{{b}}"), "{{b}}deep");
}

#[test]
fn placeholder_name_is_trimmed() {
    let store = store_of(&[("name", "v")]);
    assert_eq!(store.process_variables("{{  name  }}"), "v");
    assert_eq!(store.process_variables("{{name}}"), "v");
    assert_eq!(store.process_variables("{{\tname\n}}"), "v");
    assert_eq!(store.process_variables("{{ na me }}"), "{{ na me }}");
}

#[test]
fn last_declaration_of_a_name_wins() {
    let store = VariableProcessor::new();
    let doc = "<!-- @var a: 1 -->\n<!-- @var a: 2 -->\n{{a}}";
    assert_eq!(store.process_variables(doc), "2");
}

#[test]
fn first_closing_brace_ends_the_name() {
    let store = store_of(&[("a", "A"), ("{a", "B"), ("a}", "C")]);
    assert_eq!(store.process_variables("{{a}}"), "A");
    assert_eq!(store.process_variables("{{{a}}"), "B");
    assert_eq!(store.process_variables("{{a}}}"), "A}");
    assert_eq!(store.process_variables("{{a}"), "{{a}");
    assert_eq!(store.process_variables("{{a} }"), "{{a} }");
    assert_eq!(store.process_variables("{{}}"), "{{}}");
    assert_eq!(store.process_variables("{{}}a}}"), "{{}}a}}");
    assert_eq!(store.process_variables("{ {a}}"), "{ {a}}");
    assert_eq!(store.process_variables("x{{a}}y{{a}}z"), "xAyAz");
    assert_eq!(store.process_variables("{{a"), "{{a");
    assert_eq!(store.process_variables("{{"), "{{");
    assert_eq!(store.process_variables("{"), "{");
}

#[test]
fn value_is_substituted_verbatim() {
    let store = store_of(&[("v", "  <b>é</b> $1 \\ ")]);
    assert_eq!(store.process_variables("[{{v}}]"), "[  <b>é</b> $1 \\ ]");
}

#[test]
fn expansion_agrees_with_the_regular_expression() {
    let locals = vec![var("a", "1"), var("b c", "2"), var("a", "3"), var("{x", "4")];
    let globals = vec![var("a", "g"), var("g", "{{a}}"), var("é", "ü")];
    let pattern = Regex::new(r"\{\{([^}]+)\}\}").unwrap();
    let texts = [
        "", "plain", "{{a}}", "{{ a }}{{g}}", "{{{x}}", "{{{{a}}}}", "{{a}{{a}}", "{{}}{{a}}",
        "{{b c}} {{ b  c }}", "{{é}}{{ é\n}}", "}}{{a}}{{", "{{a\n}}\n{{zz}}", "{{ }}", "{{a}}}}",
        "{{{{{{", "{{a}}{{a}}{{a}}", "{ {a} }", "{{g}}{{missing}}{{a}}",
    ];
    for text in texts {
        let want = pattern.replace_all(text, |caps: &Captures| {
            let name = caps.get(1).unwrap().as_str().trim();
            if let Some(v) = locals.iter().rev().find(|v| v.name == name) {
                return v.value.clone();
            }
            if let Some(v) = globals.iter().rev().find(|v| v.name == name) {
                return v.value.clone();
            }
            caps[0].to_string()
        });
        assert_eq!(expand_text(text, &locals, &globals), want.to_string());
    }
}

#[test]
fn long_runs_of_braces_are_scanned_once() {
    let store = store_of(&[("a", "A")]);
    let open = "{".repeat(200_000);
    assert_eq!(store.process_variables(&open), open);
    let unclosed = "{{a}".repeat(50_000);
    assert_eq!(store.process_variables(&unclosed), unclosed);
    let closed = "{{a}}".repeat(50_000);
    assert_eq!(store.process_variables(&closed), "A".repeat(50_000));
}

#[test]
fn expansion_without_bindings_changes_nothing() {
    let store = VariableProcessor::new();
    let text = "a {{b}} {{ c }}{{}} {{d}";
    assert_eq!(store.process_variables(text), text);
    assert_eq!(expand_text(text, &Vec::new(), &Vec::new()), text);
}

#[test]
fn padded_name_resolves_as_the_bare_name() {
    let locals = vec![var("n", "local")];
    let globals = vec![var("m", "global")];
    for pad in ["", " ", "  ", "\t", "\u{3000}\n "] {
        let padded = format!("{{{{{}n{}}}}}", pad, pad);
        assert_eq!(expand_text(&padded, &locals, &globals), expand_text("{{n}}", &locals, &globals));
        let padded = format!("{{{{{}m{}}}}}", pad, pad);
        assert_eq!(expand_text(&padded, &locals, &globals), "global");
    }
}
