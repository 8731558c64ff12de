use webhook_server::template::{verify_template_parameters, TemplateError};

fn params(pairs: &[(&str, &str)]) -> Vec<(String, String)> {
    pairs.iter().map(|(k, v)| (k.to_string(), v.to_string())).collect()
}

#[test]
fn template_without_placeholders_is_returned_unchanged() {
    let rendered = verify_template_parameters("echo hi".to_string(), &params(&[]));
    assert_eq!(rendered.unwrap(), "echo hi");
}

#[test]
fn template_replaces_each_placeholder() {
    let rendered = verify_template_parameters(
        "deploy {{app}} to {{env}}".to_string(),
        &params(&[("app", "site"), ("env", "prod")]),
    );
    assert_eq!(rendered.unwrap(), "deploy site to prod");
}

#[test]
fn template_replaces_repeated_placeholders() {
    let rendered = verify_template_parameters(
        "{{x}} and {{x}}".to_string(),
        &params(&[("x", "again")]),
    );
    assert_eq!(rendered.unwrap(), "again and again");
}

#[test]
fn template_with_missing_parameter_fails() {
    let rendered = verify_template_parameters("echo {{x}}".to_string(), &params(&[]));
    assert_eq!(rendered.unwrap_err(), TemplateError::UnknownParameter);
}

#[test]
fn template_with_unclosed_tag_fails() {
    let rendered =
        verify_template_parameters("echo {{x".to_string(), &params(&[("x", "hi")]));
    assert_eq!(rendered.unwrap_err(), TemplateError::UnclosedTag);
}

#[test]
fn template_keeps_single_braces() {
    let rendered = verify_template_parameters("a {b} }} c".to_string(), &params(&[]));
    assert_eq!(rendered.unwrap(), "a {b} }} c");
}

#[test]
fn template_takes_the_first_binding_of_a_name() {
    let rendered = verify_template_parameters(
        "{{x}}".to_string(),
        &params(&[("x", "first"), ("x", "second")]),
    );
    assert_eq!(rendered.unwrap(), "first");
}

#[test]
fn template_value_is_not_rendered_again() {
    let rendered = verify_template_parameters(
        "run {{x}}".to_string(),
        &params(&[("x", "{{y}}"), ("y", "no")]),
    );
    assert_eq!(rendered.unwrap(), "run {{y}}");
}

#[test]
fn empty_template_renders_empty() {
    let rendered = verify_template_parameters(String::new(), &params(&[("x", "hi")]));
    assert_eq!(rendered.unwrap(), "");
}
