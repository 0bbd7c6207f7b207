use jakarta::matcher::{Matcher, PlaceholderMatch, PLACEHOLDER_PATTERN};
use jakarta::passes::{apply_values, is_exclusion_only, strip_exclusions};

fn matcher() -> Matcher {
    Matcher::compile(PLACEHOLDER_PATTERN).unwrap()
}

fn text_of(value: Option<&str>) -> Option<String> {
    value.map(|v| v.to_owned())
}

fn placeholder(
    full_text: &str,
    exclude: Option<&str>,
    command: Option<&str>,
    path: Option<&str>,
    field: Option<&str>,
    default_value: Option<&str>,
) -> PlaceholderMatch {
    PlaceholderMatch {
        full_text: full_text.to_owned(),
        exclude: text_of(exclude),
        command: text_of(command),
        path: text_of(path),
        field: text_of(field),
        default_value: text_of(default_value),
    }
}

#[test]
fn the_grammar_compiles() {
    assert!(Matcher::compile(PLACEHOLDER_PATTERN).is_ok());
}

#[test]
fn a_broken_pattern_is_refused() {
    assert!(Matcher::compile("foo(bar").is_err());
}

#[test]
fn another_pattern_finds_its_own_matches() {
    let digits = Matcher::compile("(?P<path>[0-9]+)").unwrap();
    assert_eq!(
        digits.find_all("a 12 b 3"),
        vec![
            placeholder("12", None, None, Some("12"), None, None),
            placeholder("3", None, None, Some("3"), None, None),
        ]
    );
}

#[test]
fn finds_command_and_path() {
    assert_eq!(
        matcher().find_all("asd ${env:TEST}"),
        vec![placeholder("${env:TEST}", None, Some("env"), Some("TEST"), None, None)]
    );
}

#[test]
fn finds_nothing_in_plain_text() {
    assert_eq!(matcher().find_all("plain $ text { with } braces"), vec![]);
    assert_eq!(matcher().find_all(""), vec![]);
}

#[test]
fn finds_placeholders_from_left_to_right() {
    assert_eq!(
        matcher().find_all("${a:1} x $${b:2} y ${c:3}"),
        vec![
            placeholder("${a:1}", None, Some("a"), Some("1"), None, None),
            placeholder("$${b:2}", Some("$"), Some("b"), Some("2"), None, None),
            placeholder("${c:3}", None, Some("c"), Some("3"), None, None),
        ]
    );
}

#[test]
fn finds_the_default() {
    assert_eq!(
        matcher().find_all("${test_2:123:-my default value}"),
        vec![placeholder(
            "${test_2:123:-my default value}",
            None,
            Some("test_2"),
            Some("123"),
            None,
            Some("my default value")
        )]
    );
}

#[test]
fn the_default_runs_to_the_last_brace_of_the_line() {
    assert_eq!(
        matcher().find_all("${a:b:-x} y ${c:d}"),
        vec![placeholder("${a:b:-x} y ${c:d}", None, Some("a"), Some("b"), None, Some("x} y ${c:d"))]
    );
    assert_eq!(
        matcher().find_all("${a:b:-x}\n${c:d}"),
        vec![
            placeholder("${a:b:-x}", None, Some("a"), Some("b"), None, Some("x")),
            placeholder("${c:d}", None, Some("c"), Some("d"), None, None),
        ]
    );
}

#[test]
fn the_default_keeps_its_whitespace() {
    assert_eq!(
        matcher().find_all("${a:b:-  x y  }"),
        vec![placeholder("${a:b:-  x y  }", None, Some("a"), Some("b"), None, Some("  x y  "))]
    );
}

#[test]
fn finds_the_field() {
    assert_eq!(
        matcher().find_all("${kv2:secret/data#password}"),
        vec![placeholder(
            "${kv2:secret/data#password}",
            None,
            Some("kv2"),
            Some("secret/data"),
            Some("password"),
            None
        )]
    );
    assert_eq!(
        matcher().find_all("${db:roles/app?username:-nobody}"),
        vec![placeholder(
            "${db:roles/app?username:-nobody}",
            None,
            Some("db"),
            Some("roles/app"),
            Some("username"),
            Some("nobody")
        )]
    );
}

#[test]
fn command_path_and_field_are_trimmed() {
    assert_eq!(
        matcher().find_all("${  env  :  A B  }"),
        vec![placeholder("${  env  :  A B  }", None, Some("env"), Some("A B"), None, None)]
    );
    assert_eq!(
        matcher().find_all("${ kv1 : p #  f  :-d}"),
        vec![placeholder("${ kv1 : p #  f  :-d}", None, Some("kv1"), Some("p"), Some("f"), Some("d"))]
    );
}

#[test]
fn an_empty_placeholder_has_no_parts() {
    assert_eq!(
        matcher().find_all("a ${} b"),
        vec![placeholder("${}", None, None, None, None, None)]
    );
    assert_eq!(
        matcher().find_all("$${}"),
        vec![placeholder("$${}", Some("$"), None, None, None, None)]
    );
}

#[test]
fn of_nested_placeholders_the_inner_one_is_found() {
    assert_eq!(
        matcher().find_all("${env:VAR_${env:VAR_1}}"),
        vec![placeholder("${env:VAR_1}", None, Some("env"), Some("VAR_1"), None, None)]
    );
}

#[test]
fn is_escaped_tells_the_marker() {
    assert!(placeholder("$${a:b}", Some("$"), Some("a"), Some("b"), None, None).is_escaped());
    assert!(!placeholder("${a:b}", None, Some("a"), Some("b"), None, None).is_escaped());
}

#[test]
fn apply_values_substitutes_in_order() {
    let found = vec![
        placeholder("${a:1}", None, Some("a"), Some("1"), None, None),
        placeholder("$${b:2}", Some("$"), Some("b"), Some("2"), None, None),
        placeholder("${c:3}", None, Some("c"), Some("3"), None, None),
    ];
    let values = vec!["one".to_owned(), "ignored".to_owned(), "three".to_owned()];
    assert_eq!(
        apply_values("${a:1} $${b:2} ${c:3} ${a:1}", &found, &values),
        "one $${b:2} three one"
    );
}

#[test]
fn apply_values_sees_what_earlier_values_put_in() {
    let found = vec![
        placeholder("${a:1}", None, Some("a"), Some("1"), None, None),
        placeholder("${c:3}", None, Some("c"), Some("3"), None, None),
    ];
    let values = vec!["${c:3}".to_owned(), "x".to_owned()];
    assert_eq!(apply_values("${a:1} ${c:3}", &found, &values), "x x");
}

#[test]
fn apply_values_without_placeholders() {
    assert_eq!(apply_values("text", &vec![], &vec![]), "text");
}

#[test]
fn strip_exclusions_takes_markers_off() {
    let found = vec![
        placeholder("${a:1}", None, Some("a"), Some("1"), None, None),
        placeholder("$${b:2}", Some("$"), Some("b"), Some("2"), None, None),
    ];
    assert_eq!(strip_exclusions("${a:1} $${b:2} $${b:2}", &found), "${a:1} ${b:2} ${b:2}");
    assert_eq!(strip_exclusions("text", &vec![]), "text");
}

#[test]
fn strip_exclusions_keeps_a_text_that_does_not_start_with_the_marker() {
    let found = vec![placeholder("{b:2}", Some("$"), Some("b"), Some("2"), None, None)];
    assert_eq!(strip_exclusions("x {b:2}", &found), "x {b:2}");
}

#[test]
fn exclusion_only_means_all_escaped() {
    let escaped = placeholder("$${b:2}", Some("$"), Some("b"), Some("2"), None, None);
    let open = placeholder("${a:1}", None, Some("a"), Some("1"), None, None);
    assert!(is_exclusion_only(&vec![]));
    assert!(is_exclusion_only(&vec![escaped.clone(), escaped.clone()]));
    assert!(!is_exclusion_only(&vec![escaped.clone(), open.clone()]));
    assert!(!is_exclusion_only(&vec![open]));
}

#[test]
fn invocation_holds_the_parts_of_the_placeholder() {
    let found = matcher().find_all("${kv:a/b#user:-nobody}");
    let call = found[0].invocation().unwrap();
    assert_eq!(call.command, "kv");
    assert_eq!(call.path, "a/b");
    assert_eq!(call.field, text_of(Some("user")));
    assert_eq!(call.default_value, text_of(Some("nobody")));

    let plain = placeholder("${a:b}", None, Some("a"), Some("b"), None, None).invocation().unwrap();
    assert_eq!(plain.command, "a");
    assert_eq!(plain.path, "b");
    assert_eq!(plain.field, None);
    assert_eq!(plain.default_value, None);
}

#[test]
fn no_invocation_for_escaped_and_malformed_placeholders() {
    assert_eq!(
        placeholder("$${a:b}", Some("$"), Some("a"), Some("b"), None, None).invocation(),
        None
    );
    assert_eq!(placeholder("${}", None, None, None, None, None).invocation(), None);
    assert_eq!(placeholder("${a}", None, Some("a"), None, None, Some("d")).invocation(), None);
    assert_eq!(placeholder("${:b}", None, None, Some("b"), None, None).invocation(), None);
}
