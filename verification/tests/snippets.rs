use omnyssh::keyed::Table;
use omnyssh::snippets::substitute_params;

fn names(ns: &[&str]) -> Vec<String> {
    ns.iter().map(|s| s.to_string()).collect()
}

fn map(pairs: &[(&str, &str)]) -> Table {
    let mut t = Table::new();
    for (k, v) in pairs {
        t.insert(&k.to_string(), &v.to_string());
    }
    t
}

#[test]
fn substitutes_a_declared_param() {
    let out = substitute_params(
        "echo {{name}}",
        Some(&names(&["name"])),
        &map(&[("name", "world")]),
    );
    assert_eq!(out, "echo world");
}

#[test]
fn substitutes_every_occurrence_of_a_declared_param() {
    let out = substitute_params("{{x}} {{x}}", Some(&names(&["x"])), &map(&[("x", "v")]));
    assert_eq!(out, "v v");
}

#[test]
fn none_declared_returns_the_command_unchanged() {
    let out = substitute_params("echo {{x}}", None, &map(&[("x", "v")]));
    assert_eq!(out, "echo {{x}}");
}

#[test]
fn an_empty_value_erases_the_placeholder() {
    let out = substitute_params("a{{p}}b", Some(&names(&["p"])), &map(&[("p", "")]));
    assert_eq!(out, "ab");
}

#[test]
fn an_undeclared_placeholder_is_left_literal_even_with_a_value() {
    // A value keyed under an undeclared name is ignored — the token stays put.
    let out = substitute_params("run {{x}}", Some(&names(&["y"])), &map(&[("x", "boom")]));
    assert_eq!(out, "run {{x}}");
}

#[test]
fn a_declared_param_with_no_value_is_left_literal() {
    let out = substitute_params(
        "{{a}} {{b}}",
        Some(&names(&["a", "b"])),
        &map(&[("a", "x")]),
    );
    assert_eq!(out, "x {{b}}");
}

#[test]
fn a_substituted_value_is_not_re_expanded() {
    // The value of `a` looks like a placeholder for `b`, but it is inserted
    // literally and never re-scanned — the sentinel for `b` cannot leak.
    let out = substitute_params(
        "{{a}}",
        Some(&names(&["a", "b"])),
        &map(&[("a", "{{b}}"), ("b", "SENTINEL")]),
    );
    assert_eq!(out, "{{b}}");
}

#[test]
fn a_single_brace_is_untouched() {
    let out = substitute_params("{name}", Some(&names(&["name"])), &map(&[("name", "v")]));
    assert_eq!(out, "{name}");
}

#[test]
fn a_value_is_inserted_verbatim_without_shell_escaping() {
    // Substitution is textual: the user is responsible for trusting the values.
    let out = substitute_params(
        "sh -c {{c}}",
        Some(&names(&["c"])),
        &map(&[("c", "; rm -rf /")]),
    );
    assert_eq!(out, "sh -c ; rm -rf /");
}

#[test]
fn an_unterminated_placeholder_is_kept_as_it_is() {
    let out = substitute_params("a {{x} {{y}}", Some(&names(&["x", "y"])), &map(&[("y", "Y")]));
    assert_eq!(out, "a {{x} {{y}}");
    let out = substitute_params("a {{y}} {{z", Some(&names(&["y"])), &map(&[("y", "Y")]));
    assert_eq!(out, "a Y {{z");
}

#[test]
fn unicode_around_a_placeholder_survives() {
    let out = substitute_params("ä{{n}}ö", Some(&names(&["n"])), &map(&[("n", "ü")]));
    assert_eq!(out, "äüö");
}
