use templus::compiler::ast::{Expression, IfExpr, Op, Statement};
use templus::compiler::describe::number;
use templus::compiler::error::{LexFault, ParseFault, RenderFault, TemplusError};
use templus::compiler::lexer::Span;
use templus::compiler::parser::Parser;

fn parse(src: &str) -> Result<Vec<Statement>, TemplusError> {
    Parser::new(src.as_bytes()).parse()
}

fn text(t: &str) -> Statement {
    Statement::Expression(Expression::Literal(t.to_string()))
}

fn variable(t: &str) -> Statement {
    Statement::Expression(Expression::Variable(t.to_string()))
}

#[test]
fn parse_define_with_markup_and_variable() {
    let got = parse("{{ define 'd' }}hi {{.name}}{{ end }}").unwrap();
    assert_eq!(
        got,
        vec![Statement::Define("d".to_string(), None, vec![text("hi"), variable("name")])]
    );
}

#[test]
fn parse_define_extends() {
    let got = parse("{{ define 'child' extends 'base' }}{{ block 'title' }}x{{ end }}{{ end }}")
        .unwrap();
    assert_eq!(
        got,
        vec![Statement::Define(
            "child".to_string(),
            Some("base".to_string()),
            vec![Statement::Block("title".to_string(), vec![text("x")])]
        )]
    );
}

#[test]
fn parse_import_has_no_body() {
    let got = parse("{{ define 'a' }}{{ import 'b' }}tail{{ end }}").unwrap();
    assert_eq!(
        got,
        vec![Statement::Define(
            "a".to_string(),
            None,
            vec![Statement::Import("b".to_string()), text("tail")]
        )]
    );
}

#[test]
fn parse_if_forms() {
    let got = parse("{{ if .admin }}A{{ end }}{{ if .score >= 100 }}B{{ end }}").unwrap();
    assert_eq!(
        got,
        vec![
            Statement::Expression(Expression::If(
                IfExpr {
                    left: Box::new(Expression::Variable("admin".to_string())),
                    right: None,
                    op: None
                },
                vec![text("A")]
            )),
            Statement::Expression(Expression::If(
                IfExpr {
                    left: Box::new(Expression::Variable("score".to_string())),
                    right: Some(Box::new(Expression::Literal("100".to_string()))),
                    op: Some(Op::Gte)
                },
                vec![text("B")]
            )),
        ]
    );
}

#[test]
fn parse_range_forms_and_nesting() {
    let got = parse("{{ range .items }}{{ range 3 }}x{{ end }}y{{ end }}z").unwrap();
    assert_eq!(
        got,
        vec![
            Statement::Expression(Expression::Range(
                Box::new(Expression::Variable("items".to_string())),
                vec![
                    Statement::Expression(Expression::Range(
                        Box::new(Expression::Literal("3".to_string())),
                        vec![text("x")]
                    )),
                    text("y"),
                ]
            )),
            text("z"),
        ]
    );
}

#[test]
fn parse_stops_at_an_end_that_closes_nothing() {
    assert_eq!(parse("a{{ end }}b").unwrap(), vec![text("a")]);
    assert_eq!(parse("").unwrap(), vec![]);
}

#[test]
fn parse_body_may_end_with_the_input() {
    assert_eq!(
        parse("{{ block 'b' }}x").unwrap(),
        vec![Statement::Block("b".to_string(), vec![text("x")])]
    );
}

#[test]
fn parse_malformed_if() {
    assert_eq!(
        parse("{{ define 'd' }}{{ if }}A{{ end }}{{ end }}").unwrap_err(),
        TemplusError::ParserError(
            ParseFault::MissingOperand,
            Span { current_line: 1, current_column: 21 }
        )
    );
    assert!(matches!(
        parse("{{ if .a && .b }}").unwrap_err(),
        TemplusError::ParserError(ParseFault::MissingOperator, _)
    ));
    assert!(matches!(
        parse("{{ if .a == }}").unwrap_err(),
        TemplusError::ParserError(ParseFault::MissingOperand, _)
    ));
}

#[test]
fn parse_missing_names() {
    assert!(matches!(
        parse("{{ define }}").unwrap_err(),
        TemplusError::ParserError(ParseFault::MissingName, _)
    ));
    assert!(matches!(
        parse("{{ block .x }}").unwrap_err(),
        TemplusError::ParserError(ParseFault::MissingName, _)
    ));
    assert!(matches!(
        parse("{{ import }}").unwrap_err(),
        TemplusError::ParserError(ParseFault::MissingName, _)
    ));
    assert!(matches!(
        parse("{{ define 'a' extends }}").unwrap_err(),
        TemplusError::ParserError(ParseFault::MissingBase, _)
    ));
    assert!(matches!(
        parse("{{ range }}").unwrap_err(),
        TemplusError::ParserError(ParseFault::MissingSource, _)
    ));
}

#[test]
fn parse_unexpected_tokens() {
    assert!(matches!(
        parse("{{ else }}").unwrap_err(),
        TemplusError::ParserError(ParseFault::UnexpectedToken, _)
    ));
    assert!(matches!(
        parse("{{ 'stray' }}").unwrap_err(),
        TemplusError::ParserError(ParseFault::UnexpectedToken, _)
    ));
    assert!(matches!(
        parse("{{ set }}").unwrap_err(),
        TemplusError::ParserError(ParseFault::UnexpectedToken, _)
    ));
}

#[test]
fn parse_hands_lexer_errors_on() {
    assert!(matches!(
        parse("{{ define 'd' }}{{ if .a").unwrap_err(),
        TemplusError::LexerError(LexFault::UnterminatedDirective, _)
    ));
    assert!(matches!(
        parse("{{ block 'abc }}").unwrap_err(),
        TemplusError::LexerError(LexFault::UnterminatedString, _)
    ));
    assert!(matches!(
        parse("{{ range what }}").unwrap_err(),
        TemplusError::LexerError(LexFault::UnknownWord, _)
    ));
}

#[test]
fn parse_first_error_wins() {
    assert!(matches!(
        parse("{{ if }}{{ 'open").unwrap_err(),
        TemplusError::ParserError(ParseFault::MissingOperand, _)
    ));
}

#[test]
fn statements_in_words() {
    let got = parse("{{ define 'd' }}x{{ block 'b' }}{{.v}}{{ import 'i' }}{{ end }}{{ if .a }}{{ end }}{{ range 2 }}{{ end }}{{ end }}")
        .unwrap();
    assert_eq!(got.len(), 1);
    assert_eq!(
        got[0].describe(),
        "(define:d)([lit])(block:b)([var])(import:i)\n([if])([range])\n"
    );
    assert_eq!(Expression::Variable("v".to_string()).describe(), "[var]");
    assert_eq!(Statement::Import("i".to_string()).describe(), "(import:i)");
}

#[test]
fn errors_in_words() {
    assert_eq!(number(0), "0");
    assert_eq!(number(9), "9");
    assert_eq!(number(10), "10");
    assert_eq!(number(1234567890), "1234567890");
    assert_eq!(number(usize::MAX), usize::MAX.to_string());
    assert_eq!(Span { current_line: 12, current_column: 0 }.describe(), "12:0");
    assert_eq!(
        parse("\n\n{{ if }}").unwrap_err().describe(),
        "Parser error at: 3:5"
    );
    assert_eq!(parse("{{ 'a").unwrap_err().describe(), "Lexer error at: 1:3");
    assert_eq!(
        TemplusError::ConfigurationError.describe(),
        "File contains blocks outside of templates"
    );
    assert_eq!(
        TemplusError::RenderError(RenderFault::TemplateNotFound).describe(),
        "template not found"
    );
    assert_eq!(TemplusError::RenderError(RenderFault::MissingKey).describe(), "var not found");
    assert_eq!(RenderFault::NotText.describe(), "var not stringable");
    assert_eq!(RenderFault::NotAnArray.describe(), "cannot range over non array");
    assert_eq!(
        RenderFault::InvalidCount.describe(),
        "range literal required a valid number"
    );
}
