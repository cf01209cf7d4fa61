use templus::compiler::ast::{Expression, IfExpr, Statement};
use templus::compiler::error::{LexFault, ParseFault, RenderFault, TemplusError};
use templus::renderer::{Envirement, MAX_DEPTH};
use templus::value::Value;

fn env(sources: &[&str]) -> Envirement {
    let mut e = Envirement::new();
    for s in sources {
        e.parse(s).unwrap();
    }
    e
}

fn object(fields: Vec<(&str, Value)>) -> Value {
    Value::Object(fields.into_iter().map(|(k, v)| (k.to_string(), v)).collect())
}

fn string(s: &str) -> Value {
    Value::String(s.to_string())
}

fn fault(f: RenderFault) -> Result<String, TemplusError> {
    Err(TemplusError::RenderError(f))
}

#[test]
fn render_plain_text() {
    let e = env(&["{{ define 'd' }}plain text{{ end }}"]);
    assert_eq!(e.render("d", &Value::Null), Ok("plain text".to_string()));
    let e = env(&["{{ define 'd' }}  \n plain text \t{{ end }}"]);
    assert_eq!(e.render("d", &Value::Null), Ok("plain text".to_string()));
}

#[test]
fn render_variable() {
    let e = env(&["{{ define 'd' }}hi {{.name}}{{ end }}"]);
    let ctx = object(vec![("name", string("lommix"))]);
    assert_eq!(e.render("d", &ctx), Ok("hilommix".to_string()));
}

#[test]
fn render_variable_that_is_no_string() {
    let e = env(&["{{ define 'd' }}{{.x}}{{ end }}"]);
    assert_eq!(e.render("d", &object(vec![("x", Value::Number(1))])), fault(RenderFault::NotText));
    assert_eq!(e.render("d", &object(vec![("x", Value::Bool(true))])), fault(RenderFault::NotText));
    assert_eq!(e.render("d", &object(vec![("x", Value::Null)])), fault(RenderFault::NotText));
    assert_eq!(e.render("d", &object(vec![("x", string(""))])), Ok(String::new()));
}

#[test]
fn render_if_on_a_boolean() {
    let e = env(&["{{ define 'd' }}{{ if .admin }}A{{ end }}{{ end }}"]);
    assert_eq!(e.render("d", &object(vec![("admin", Value::Bool(true))])), Ok("A".to_string()));
    assert_eq!(e.render("d", &object(vec![("admin", Value::Bool(false))])), Ok(String::new()));
    assert_eq!(e.render("d", &object(vec![])), Ok(String::new()));
}

#[test]
fn render_if_with_a_comparison() {
    let e = env(&["{{ define 'd' }}{{ if .score >= 100 }}win{{ end }}{{ end }}"]);
    assert_eq!(e.render("d", &object(vec![("score", Value::Number(100))])), Ok("win".to_string()));
    assert_eq!(e.render("d", &object(vec![("score", Value::Number(99))])), Ok(String::new()));
    assert_eq!(
        e.render("d", &object(vec![("score", string("100"))])),
        fault(RenderFault::TypeMismatch)
    );
    assert_eq!(e.render("d", &object(vec![])), fault(RenderFault::MissingKey));
}

#[test]
fn render_range_over_an_array() {
    let e = env(&["{{ define 'd' }}{{ range .items }}<{{.n}}>{{ end }}{{ end }}"]);
    let ctx = object(vec![(
        "items",
        Value::Array(vec![object(vec![("n", string("a"))]), object(vec![("n", string("b"))])]),
    )]);
    assert_eq!(e.render("d", &ctx), Ok("<a><b>".to_string()));
    assert_eq!(e.render("d", &object(vec![("items", Value::Array(vec![]))])), Ok(String::new()));
    assert_eq!(e.render("d", &object(vec![("items", string("ab"))])), fault(RenderFault::NotAnArray));
    assert_eq!(e.render("d", &object(vec![])), fault(RenderFault::MissingKey));
}

#[test]
fn render_range_items_are_their_own_context() {
    let e = env(&["{{ define 'd' }}{{ range .items }}{{.}}{{ end }}{{ end }}"]);
    let ctx = object(vec![("items", Value::Array(vec![string("a"), string("b")]))]);
    assert_eq!(e.render("d", &ctx), fault(RenderFault::MissingKey));
    let ctx = object(vec![(
        "items",
        Value::Array(vec![object(vec![("", string("a"))]), object(vec![("", string("b"))])]),
    )]);
    assert_eq!(e.render("d", &ctx), Ok("ab".to_string()));
    let ctx = object(vec![
        ("n", string("outer")),
        ("items", Value::Array(vec![object(vec![("n", string("inner"))])])),
    ]);
    let e = env(&["{{ define 'd' }}{{.n}}{{ range .items }}{{.n}}{{ end }}{{.n}}{{ end }}"]);
    assert_eq!(e.render("d", &ctx), Ok("outerinnerouter".to_string()));
}

#[test]
fn render_range_over_a_count() {
    let e = env(&["{{ define 'd' }}{{ range 3 }}{{.x}}-{{ end }}{{ end }}"]);
    assert_eq!(e.render("d", &object(vec![("x", string("a"))])), Ok("a-a-a-".to_string()));
    let e = env(&["{{ define 'd' }}{{ range 0 }}x{{ end }}{{ end }}"]);
    assert_eq!(e.render("d", &Value::Null), Ok(String::new()));
    let e = env(&["{{ define 'd' }}{{ range '-2' }}x{{ end }}{{ end }}"]);
    assert_eq!(e.render("d", &Value::Null), Ok(String::new()));
    let e = env(&["{{ define 'd' }}{{ range 'many' }}x{{ end }}{{ end }}"]);
    assert_eq!(e.render("d", &Value::Null), fault(RenderFault::InvalidCount));
}

#[test]
fn render_inheritance() {
    let e = env(&[
        "{{ define 'base' }}{{ block 'title' }}default{{ end }}{{ end }}",
        "{{ define 'child' extends 'base' }}{{ block 'title' }}override{{ end }}{{ end }}",
    ]);
    assert_eq!(e.render("child", &Value::Null), Ok("override".to_string()));
    assert_eq!(e.render("base", &Value::Null), Ok("default".to_string()));
}

#[test]
fn render_inheritance_keeps_what_is_not_overridden() {
    let e = env(&[
        "{{ define 'base' }}<{{ block 'a' }}A{{ end }}|{{ block 'b' }}B{{ end }}>{{ end }}",
        "{{ define 'child' extends 'base' }}ignored{{ block 'b' }}x{{ end }}{{ block 'c' }}y{{ end }}{{ block 'b' }}z{{ end }}{{ end }}",
    ]);
    assert_eq!(e.render("child", &Value::Null), Ok("<A|z>".to_string()));
}

#[test]
fn render_overrides_reach_into_range_but_not_into_if() {
    let e = env(&[
        "{{ define 'base' }}{{ range 2 }}{{ block 'a' }}A{{ end }}{{ end }}{{ if 'x' }}{{ block 'a' }}A{{ end }}{{ end }}{{ end }}",
        "{{ define 'child' extends 'base' }}{{ block 'a' }}o{{ end }}{{ end }}",
    ]);
    assert_eq!(e.render("child", &Value::Null), Ok("ooA".to_string()));
}

#[test]
fn render_extension_is_followed_one_level() {
    let e = env(&[
        "{{ define 'top' }}T{{ block 'a' }}1{{ end }}{{ end }}",
        "{{ define 'mid' extends 'top' }}{{ block 'a' }}2{{ end }}{{ end }}",
        "{{ define 'low' extends 'mid' }}{{ block 'a' }}3{{ end }}{{ end }}",
    ]);
    assert_eq!(e.render("mid", &Value::Null), Ok("T2".to_string()));
    assert_eq!(e.render("low", &Value::Null), Ok("3".to_string()));
}

#[test]
fn render_import_sees_no_overrides() {
    let e = env(&[
        "{{ define 'part' }}[{{ block 'a' }}P{{ end }}{{.x}}]{{ end }}",
        "{{ define 'base' }}{{ block 'a' }}B{{ end }}{{ import 'part' }}{{ end }}",
        "{{ define 'child' extends 'base' }}{{ block 'a' }}C{{ end }}{{ end }}",
    ]);
    let ctx = object(vec![("x", string("!"))]);
    assert_eq!(e.render("child", &ctx), Ok("C[P!]".to_string()));
    let e = env(&["{{ define 'a' }}{{ import 'missing' }}{{ end }}"]);
    assert_eq!(e.render("a", &Value::Null), fault(RenderFault::ImportNotFound));
    let e = env(&["{{ define 'a' extends 'missing' }}{{ end }}"]);
    assert_eq!(e.render("a", &Value::Null), fault(RenderFault::BaseNotFound));
}

#[test]
fn render_twice_gives_the_same() {
    let e = env(&[
        "{{ define 'base' }}{{ block 't' }}d{{ end }}{{ range .items }}{{.n}}{{ end }}{{ end }}",
        "{{ define 'child' extends 'base' }}{{ block 't' }}{{.name}}{{ end }}{{ end }}",
    ]);
    let ctx = object(vec![
        ("name", string("lommix")),
        ("items", Value::Array(vec![object(vec![("n", string("1"))])])),
    ]);
    let first = e.render("child", &ctx);
    let second = e.render("child", &ctx);
    assert_eq!(first, Ok("lommix1".to_string()));
    assert_eq!(first, second);
    let first = e.render("nope", &ctx);
    assert_eq!(first, e.render("nope", &ctx));
}

#[test]
fn errors_have_their_own_kinds() {
    let e = env(&["{{ define 'd' }}{{.x}}{{ end }}"]);
    assert_eq!(e.render("unknown", &Value::Null), fault(RenderFault::TemplateNotFound));
    assert_eq!(e.render("d", &object(vec![])), fault(RenderFault::MissingKey));
    let mut e = Envirement::new();
    assert!(matches!(
        e.parse("{{ define 'd' }}{{"),
        Err(TemplusError::LexerError(LexFault::UnterminatedDirective, _))
    ));
    assert!(matches!(
        e.parse("{{ define 'd' }}{{ if }}A{{ end }}{{ end }}"),
        Err(TemplusError::ParserError(ParseFault::MissingOperand, _))
    ));
    assert!(e.templates.is_empty());
}

#[test]
fn render_fails_as_a_whole() {
    let e = env(&["{{ define 'd' }}before{{.x}}after{{ end }}"]);
    assert_eq!(e.render("d", &Value::Null), fault(RenderFault::MissingKey));
}

#[test]
fn parse_takes_templates_only() {
    let mut e = Envirement::new();
    assert_eq!(e.parse("stray"), Err(TemplusError::ConfigurationError));
    assert!(e.templates.is_empty());
    assert_eq!(
        e.parse("{{ define 'a' }}1{{ end }}{{ block 'b' }}{{ end }}{{ define 'c' }}3{{ end }}"),
        Err(TemplusError::ConfigurationError)
    );
    assert_eq!(e.render("a", &Value::Null), Ok("1".to_string()));
    assert_eq!(e.render("c", &Value::Null), fault(RenderFault::TemplateNotFound));
}

#[test]
fn parse_again_replaces() {
    let mut e = Envirement::new();
    assert_eq!(e.parse("{{ define 'a' }}1{{ end }}{{ define 'b' }}2{{ end }}"), Ok(()));
    assert_eq!(e.parse("{{ define 'a' }}3{{ end }}"), Ok(()));
    assert_eq!(e.render("a", &Value::Null), Ok("3".to_string()));
    assert_eq!(e.render("b", &Value::Null), Ok("2".to_string()));
    assert_eq!(e.parse("{{ define 'b' }}4{{ end }}{{ define 'b' }}5{{ end }}"), Ok(()));
    assert_eq!(e.render("b", &Value::Null), Ok("5".to_string()));
    assert_eq!(e.templates.len(), 2);
    assert_eq!(e.parse("{{ define 'c' }}6{{ end }}"), Ok(()));
    assert_eq!(e.templates.len(), 3);
    assert_eq!(e.render("a", &Value::Null), Ok("3".to_string()));
    assert_eq!(e.render("c", &Value::Null), Ok("6".to_string()));
}

#[test]
fn render_a_template_that_imports_itself() {
    let e = env(&["{{ define 'a' }}x{{ import 'a' }}{{ end }}"]);
    assert_eq!(e.render("a", &Value::Null), fault(RenderFault::TooDeep));
    let e = env(&[
        "{{ define 'base' }}{{ block 'a' }}{{ end }}{{ end }}",
        "{{ define 'child' extends 'base' }}{{ block 'a' }}{{ block 'a' }}{{ end }}{{ end }}{{ end }}",
    ]);
    assert_eq!(e.render("child", &Value::Null), fault(RenderFault::TooDeep));
}

#[test]
fn render_follows_imports_to_the_limit() {
    let mut e = Envirement::new();
    e.parse("{{ define 't0' }}.{{ end }}").unwrap();
    for i in 1..=MAX_DEPTH + 1 {
        let src = format!("{{{{ define 't{}' }}}}{{{{ import 't{}' }}}}{{{{ end }}}}", i, i - 1);
        e.parse(&src).unwrap();
    }
    assert_eq!(e.render(&format!("t{}", MAX_DEPTH), &Value::Null), Ok(".".to_string()));
    assert_eq!(e.render(&format!("t{}", MAX_DEPTH + 1), &Value::Null), fault(RenderFault::TooDeep));
}

#[test]
fn extract_blocks_lists_direct_blocks() {
    let body = vec![
        Statement::Block("a".to_string(), vec![]),
        Statement::Import("x".to_string()),
        Statement::Block("b".to_string(), vec![Statement::Block("inner".to_string(), vec![])]),
    ];
    let got = Envirement::extract_blocks(&body);
    let names: Vec<&str> = got.iter().map(|(n, _)| n.as_str()).collect();
    assert_eq!(names, vec!["a", "b"]);
    assert_eq!(got[1].1.len(), 1);
}

#[test]
fn render_overrides_reach_nested_blocks() {
    let e = env(&[
        "{{ define 'base' }}{{ block 'a' }}A{{ block 'b' }}B{{ end }}{{ end }}{{ end }}",
        "{{ define 'inner' extends 'base' }}{{ block 'b' }}x{{ end }}{{ end }}",
        "{{ define 'outer' extends 'base' }}{{ block 'a' }}y{{ block 'b' }}B{{ end }}{{ end }}{{ block 'b' }}z{{ end }}{{ end }}",
    ]);
    assert_eq!(e.render("base", &Value::Null), Ok("AB".to_string()));
    assert_eq!(e.render("inner", &Value::Null), Ok("Ax".to_string()));
    assert_eq!(e.render("outer", &Value::Null), Ok("yz".to_string()));
}

#[test]
fn render_a_template_inside_a_template() {
    let e = env(&[
        "{{ define 'base' }}[{{ block 'a' }}A{{ end }}]{{ end }}",
        "{{ define 'outer' }}<{{ define 'nested' extends 'base' }}{{ block 'a' }}n{{ end }}{{ end }}>{{ end }}",
    ]);
    assert_eq!(e.render("outer", &Value::Null), Ok("<[n]>".to_string()));
    assert_eq!(e.render("nested", &Value::Null), fault(RenderFault::TemplateNotFound));
}

#[test]
fn render_literal_condition_and_literal_on_the_left() {
    let e = env(&["{{ define 'd' }}{{ if 'anything' }}yes{{ end }}{{ end }}"]);
    assert_eq!(e.render("d", &Value::Null), Ok("yes".to_string()));
    let e = env(&["{{ define 'd' }}{{ if '1' == '1' }}yes{{ end }}{{ end }}"]);
    assert_eq!(e.render("d", &Value::Null), fault(RenderFault::MalformedCondition));
    let e = env(&["{{ define 'd' }}{{ if .list == 1 }}yes{{ end }}{{ end }}"]);
    assert_eq!(
        e.render("d", &object(vec![("list", Value::Array(vec![]))])),
        fault(RenderFault::NotComparable)
    );
}

#[test]
fn render_statements_built_by_hand() {
    let mut e = Envirement::new();
    e.templates.push(Statement::Import("stray".to_string()));
    e.templates.push(Statement::Define(
        "d".to_string(),
        None,
        vec![Statement::Expression(Expression::Range(
            Box::new(Expression::If(
                IfExpr { left: Box::new(Expression::Literal("x".to_string())), right: None, op: None },
                vec![],
            )),
            vec![],
        ))],
    ));
    e.templates.push(Statement::Define(
        "lit".to_string(),
        None,
        vec![
            Statement::Expression(Expression::Literal(" kept as it is ".to_string())),
            Statement::Define("inner".to_string(), None, vec![Statement::Expression(
                Expression::Literal("!".to_string()),
            )]),
        ],
    ));
    e.templates.push(Statement::Block("lit".to_string(), vec![]));
    assert_eq!(e.render("d", &Value::Null), fault(RenderFault::InvalidSource));
    assert_eq!(e.render("lit", &Value::Null), Ok(" kept as it is !".to_string()));
    assert_eq!(e.render("stray", &Value::Null), fault(RenderFault::TemplateNotFound));
    assert_eq!(e.parse("{{ define 'lit' }}new{{ end }}"), Ok(()));
    assert_eq!(e.templates.len(), 4);
    assert_eq!(e.render("lit", &Value::Null), Ok("new".to_string()));
}
