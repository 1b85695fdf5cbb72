use actflow::json::{JsonValue, Vars};
use actflow::template::{resolve_template, resolve_template_to_values, Context};

fn create_test_context() -> Context {
    Context::new("test-pid".to_string())
}

fn s(v: &str) -> JsonValue {
    JsonValue::Str(v.to_string())
}

fn n(v: &str) -> JsonValue {
    JsonValue::Number(v.to_string())
}

#[test]
fn test_resolve_template_no_variables() {
    let ctx = create_test_context();
    let result = resolve_template(&ctx, "hello world").unwrap();
    assert_eq!(result, "hello world");
}

#[test]
fn test_resolve_template_simple_output() {
    let mut ctx = create_test_context();
    let mut vars = Vars::new();
    vars.set("message", s("hello"));
    ctx.add_output("node1".to_string(), vars);

    let result = resolve_template(&ctx, "{{#node1.message#}}").unwrap();
    assert_eq!(result, "hello");
}

#[test]
fn test_resolve_template_nested_output() {
    let mut ctx = create_test_context();
    let mut vars = Vars::new();
    vars.set(
        "data",
        JsonValue::Object(vec![("user".to_string(), JsonValue::Object(vec![("name".to_string(), s("Alice"))]))]),
    );
    ctx.add_output("node1".to_string(), vars);

    let result = resolve_template(&ctx, "{{#node1.data.user.name#}}").unwrap();
    assert_eq!(result, "Alice");
}

#[test]
fn test_resolve_template_number_output() {
    let mut ctx = create_test_context();
    let mut vars = Vars::new();
    vars.set("count", n("42"));
    ctx.add_output("node1".to_string(), vars);

    let result = resolve_template(&ctx, "count: {{#node1.count#}}").unwrap();
    assert_eq!(result, "count: 42");
}

#[test]
fn test_resolve_template_bool_output() {
    let mut ctx = create_test_context();
    let mut vars = Vars::new();
    vars.set("active", JsonValue::Bool(true));
    ctx.add_output("node1".to_string(), vars);

    let result = resolve_template(&ctx, "active: {{#node1.active#}}").unwrap();
    assert_eq!(result, "active: true");
}

#[test]
fn test_resolve_template_multiple_outputs() {
    let mut ctx = create_test_context();

    let mut vars1 = Vars::new();
    vars1.set("name", s("Alice"));
    ctx.add_output("node1".to_string(), vars1);

    let mut vars2 = Vars::new();
    vars2.set("age", n("30"));
    ctx.add_output("node2".to_string(), vars2);

    let result = resolve_template(&ctx, "{{#node1.name#}} is {{#node2.age#}} years old").unwrap();
    assert_eq!(result, "Alice is 30 years old");
}

#[test]
fn test_resolve_template_missing_node() {
    let ctx = create_test_context();
    let result = resolve_template(&ctx, "{{#unknown.value#}}");
    assert!(result.is_err());
    assert!(result.unwrap_err().to_string().contains("not found"));
}

#[test]
fn test_resolve_template_missing_key() {
    let mut ctx = create_test_context();
    let mut vars = Vars::new();
    vars.set("name", s("Alice"));
    ctx.add_output("node1".to_string(), vars);

    let result = resolve_template(&ctx, "{{#node1.unknown#}}");
    assert!(result.is_err());
}

#[test]
fn test_resolve_template_env_variable() {
    let mut ctx = create_test_context();
    ctx.set_env("TEST_VAR".to_string(), "test_value".to_string());

    let result = resolve_template(&ctx, "{{$TEST_VAR$}}").unwrap();
    assert_eq!(result, "test_value");
}

#[test]
fn test_resolve_template_env_variable_in_text() {
    let mut ctx = create_test_context();
    ctx.set_env("API_KEY".to_string(), "secret123".to_string());

    let result = resolve_template(&ctx, "API Key: {{$API_KEY$}}").unwrap();
    assert_eq!(result, "API Key: secret123");
}

#[test]
fn test_resolve_template_missing_env_variable() {
    let ctx = create_test_context();
    let result = resolve_template(&ctx, "{{$NONEXISTENT_VAR$}}");
    assert!(result.is_err());
    assert!(result.unwrap_err().to_string().contains("env variable"));
}

#[test]
fn test_resolve_template_mixed_env_and_output() {
    let mut ctx = create_test_context();
    ctx.set_env("PREFIX".to_string(), "Hello".to_string());

    let mut vars = Vars::new();
    vars.set("name", s("World"));
    ctx.add_output("node1".to_string(), vars);

    let result = resolve_template(&ctx, "{{$PREFIX$}}, {{#node1.name#}}!").unwrap();
    assert_eq!(result, "Hello, World!");
}

#[test]
fn test_resolve_template_multiple_env_variables() {
    let mut ctx = create_test_context();
    ctx.set_env("HOST".to_string(), "localhost".to_string());
    ctx.set_env("PORT".to_string(), "8080".to_string());

    let result = resolve_template(&ctx, "http://{{$HOST$}}:{{$PORT$}}/api").unwrap();
    assert_eq!(result, "http://localhost:8080/api");
}

#[test]
fn resolve_is_idempotent_without_tokens() {
    let ctx = create_test_context();
    let once = resolve_template(&ctx, "plain {text} with $ and # signs").unwrap();
    let twice = resolve_template(&ctx, &once).unwrap();
    assert_eq!(once, "plain {text} with $ and # signs");
    assert_eq!(twice, once);
}

#[test]
fn scenario_template_expansion_gives_literal_text() {
    let mut ctx = create_test_context();
    let mut vars = Vars::new();
    vars.set("answer", n("42"));
    ctx.add_output("a".to_string(), vars);
    assert_eq!(resolve_template(&ctx, "{{#a.answer#}}").unwrap(), "42");
}

#[test]
fn errors_list_env_tokens_before_output_tokens() {
    let ctx = create_test_context();
    let err = resolve_template(&ctx, "{{#n.k#}} {{$A$}}").unwrap_err().to_string();
    assert_eq!(err, "env variable 'A' not found, variable '{{#n.k#}}' not found");
}

#[test]
fn composite_values_read_as_json_text() {
    let mut ctx = create_test_context();
    let mut vars = Vars::new();
    vars.set(
        "obj",
        JsonValue::Object(vec![
            ("foo".to_string(), s("b\"ar")),
            ("list".to_string(), JsonValue::Array(vec![n("1"), JsonValue::Null, JsonValue::Bool(false)])),
        ]),
    );
    ctx.add_output("node1".to_string(), vars);
    let result = resolve_template(&ctx, "{{#node1.obj#}}").unwrap();
    assert_eq!(result, "{\"foo\":\"b\\\"ar\",\"list\":[1,null,false]}");
}

#[test]
fn set_replaces_an_existing_key() {
    let mut vars = Vars::new();
    vars.set("k", n("1"));
    vars.set("k", n("2"));
    assert_eq!(vars.len(), 1);
    match vars.get("k") {
        Some(JsonValue::Number(t)) => assert_eq!(t, "2"),
        _ => panic!("missing value"),
    }
}

fn texts(values: &[JsonValue]) -> Vec<String> {
    values.iter().map(actflow::json::to_json_text).collect()
}

#[test]
fn test_resolve_to_values_no_template() {
    let ctx = create_test_context();
    let result = resolve_template_to_values(&ctx, "plain text").unwrap();
    assert_eq!(texts(&result), vec!["\"plain text\"".to_string()]);
}

#[test]
fn test_resolve_to_values_single() {
    let mut ctx = create_test_context();
    let mut vars = Vars::new();
    vars.set("data", JsonValue::Object(vec![("key".to_string(), s("value"))]));
    ctx.add_output("node1".to_string(), vars);

    let result = resolve_template_to_values(&ctx, "{{#node1.data#}}").unwrap();
    assert_eq!(texts(&result), vec!["{\"key\":\"value\"}".to_string()]);
}

#[test]
fn test_resolve_to_values_multiple() {
    let mut ctx = create_test_context();

    let mut vars1 = Vars::new();
    vars1.set("a", n("1"));
    ctx.add_output("node1".to_string(), vars1);

    let mut vars2 = Vars::new();
    vars2.set("b", n("2"));
    ctx.add_output("node2".to_string(), vars2);

    let result = resolve_template_to_values(&ctx, "{{#node1.a#}} and {{#node2.b#}}").unwrap();
    assert_eq!(texts(&result), vec!["1".to_string(), "2".to_string()]);
}

#[test]
fn values_fail_on_unbound_tokens_and_ignore_env_tokens() {
    let ctx = create_test_context();
    let err = resolve_template_to_values(&ctx, "{{#a.b#}}").unwrap_err().to_string();
    assert_eq!(err, "variable '{{#a.b#}}' not found");
    let v = resolve_template_to_values(&ctx, "{{$X$}}").unwrap();
    assert_eq!(texts(&v), vec!["\"{{$X$}}\"".to_string()]);
}
