use signature_generator::mapping::RowMapping;
use signature_generator::template::CompiledTemplate;
use signature_generator::template::RenderError;
use signature_generator::template::TemplateError;

fn row(pairs: &[(&str, &str)]) -> RowMapping {
    let owned: Vec<(String, String)> =
        pairs.iter().map(|(k, v)| (k.to_string(), v.to_string())).collect();
    RowMapping::new(owned)
}

#[test]
fn test_plain_text_template() {
    let t = CompiledTemplate::compile("hello world").unwrap();
    let out = t.render(&row(&[])).unwrap();
    assert_eq!(out, "hello world");
}

#[test]
fn test_interpolation() {
    let t = CompiledTemplate::compile("Hi {name}, welcome!").unwrap();
    let out = t.render(&row(&[("name", "John")])).unwrap();
    assert_eq!(out, "Hi John, welcome!");
}

#[test]
fn test_missing_bare_interpolation_fails() {
    let t = CompiledTemplate::compile("value: {x}").unwrap();
    let r = t.render(&row(&[("y", "1")]));
    assert_eq!(r.err(), Some(RenderError));
}

#[test]
fn test_conditional_absent_key_renders_empty() {
    let t = CompiledTemplate::compile("{{- if x -}}<p>{x}</p>{{- endif -}}").unwrap();
    let out = t.render(&row(&[("y", "1")])).unwrap();
    assert_eq!(out, "");
}

#[test]
fn test_conditional_empty_value_renders_empty() {
    let t = CompiledTemplate::compile("{{- if x -}}<p>{x}</p>{{- endif -}}").unwrap();
    let out = t.render(&row(&[("x", "")])).unwrap();
    assert_eq!(out, "");
}

#[test]
fn test_conditional_present_value_renders_body() {
    let t = CompiledTemplate::compile("{{- if x -}}<p>{x}</p>{{- endif -}}").unwrap();
    let out = t.render(&row(&[("x", "42")])).unwrap();
    assert_eq!(out, "<p>42</p>");
}

#[test]
fn test_missing_key_inside_false_conditional_is_no_error() {
    let t = CompiledTemplate::compile("{{- if x -}}{x}{missing}{{- endif -}}").unwrap();
    let out = t.render(&row(&[])).unwrap();
    assert_eq!(out, "");
}

#[test]
fn test_trimming_around_delimiters() {
    let text = "A \n {{- if x -}} \n B \n {{- endif -}} \n C";
    let t = CompiledTemplate::compile(text).unwrap();
    let hit = t.render(&row(&[("x", "1")])).unwrap();
    assert_eq!(hit, "ABC");
    let miss = t.render(&row(&[])).unwrap();
    assert_eq!(miss, "AC");
}

#[test]
fn test_unterminated_interpolation_is_template_error() {
    assert_eq!(CompiledTemplate::compile("{x").err(), Some(TemplateError));
}

#[test]
fn test_empty_interpolation_is_template_error() {
    assert_eq!(CompiledTemplate::compile("{}").err(), Some(TemplateError));
}

#[test]
fn test_double_brace_without_marker_is_template_error() {
    assert_eq!(CompiledTemplate::compile("{{x}}").err(), Some(TemplateError));
}

#[test]
fn test_unterminated_conditional_is_template_error() {
    assert_eq!(CompiledTemplate::compile("{{- if x -}}body").err(), Some(TemplateError));
}

#[test]
fn test_unmatched_endif_is_template_error() {
    assert_eq!(CompiledTemplate::compile("text{{- endif -}}").err(), Some(TemplateError));
}

#[test]
fn test_nested_conditional_is_template_error() {
    let text = "{{- if a -}}{{- if b -}}x{{- endif -}}{{- endif -}}";
    assert_eq!(CompiledTemplate::compile(text).err(), Some(TemplateError));
}

#[test]
fn test_rendering_does_not_mutate_inputs() {
    let t = CompiledTemplate::compile("{a}-{a}").unwrap();
    let m = row(&[("a", "x")]);
    let first = t.render(&m).unwrap();
    let second = t.render(&m).unwrap();
    assert_eq!(first, "x-x");
    assert_eq!(first, second);
    assert_eq!(m.get("a"), Some("x".to_string()));
}
