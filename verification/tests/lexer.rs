use templus::compiler::error::{LexFault, TemplusError};
use templus::compiler::lexer::{
    btrim, is_whitespace_only, next_block_start, offset_to_any_delimiter, offset_to_delimiter,
    offset_to_number_end, Lexer, Span,
};
use templus::compiler::tokens::Token;

fn lit(text: &str) -> Token {
    Token::Literal(text.to_string())
}

fn var(text: &str) -> Token {
    Token::Var(text.to_string())
}

fn markup(text: &str) -> Token {
    Token::Template(text.to_string())
}

fn check_start<'a>(tmpl: &'a str, expected: Vec<Token>) -> Lexer<'a> {
    let mut lexer = Lexer::new(tmpl.as_bytes());
    let count = expected.len();
    let mut real = 0;
    for b in expected {
        let a = match lexer.next() {
            Some(a) => a,
            None => break,
        };
        let (t, _s) = a.unwrap();
        assert_eq!(t, b);
        real += 1;
    }
    assert_eq!(real, count);
    lexer
}

fn check(tmpl: &str, expected: Vec<Token>) {
    let mut lexer = check_start(tmpl, expected);
    assert!(lexer.next().is_none());
}

#[test]
fn lex_if() {
    let tmpl = "{{ if .loggedIn && .role == 'admin' }} <p>Hello</p> {{ end }}";
    let expected = vec![
        Token::CodeStart,
        Token::If,
        var("loggedIn"),
        Token::And,
        var("role"),
        Token::Eq,
        lit("admin"),
        Token::CodeEnd,
        markup("<p>Hello</p>"),
        Token::CodeStart,
        Token::End,
        Token::CodeEnd,
    ];
    check_start(tmpl, expected);
}

#[test]
fn lex_extends() {
    let tmpl = "{{ define 'base' extends 'test'}}";
    let expected = vec![
        Token::CodeStart,
        Token::Define,
        lit("base"),
        Token::Extends,
        lit("test"),
        Token::CodeEnd,
    ];
    check_start(tmpl, expected);
}

#[test]
fn lex_define_import_extend() {
    let tmpl = "{{ define 'base' }}{{ import 'test' }}{{ define 'test' extends 'lol'}}";
    let expected = vec![
        Token::CodeStart,
        Token::Define,
        lit("base"),
        Token::CodeEnd,
        Token::CodeStart,
        Token::Import,
        lit("test"),
        Token::CodeEnd,
        Token::CodeStart,
        Token::Define,
        lit("test"),
        Token::Extends,
        lit("lol"),
        Token::CodeEnd,
    ];
    check_start(tmpl, expected);
}

#[test]
fn lex_range_var() {
    let tmpl = "{{ range .users }}{{ .name }}{{ end }}";
    let expected = vec![
        Token::CodeStart,
        Token::Range,
        var("users"),
        Token::CodeEnd,
        Token::CodeStart,
        var("name"),
        Token::CodeEnd,
        Token::CodeStart,
        Token::End,
        Token::CodeEnd,
    ];
    check_start(tmpl, expected);
}

#[test]
fn lex_range_lit() {
    let tmpl = "{{ range 100 }}";
    let expected = vec![Token::CodeStart, Token::Range, lit("100"), Token::CodeEnd];
    check_start(tmpl, expected);
}

#[test]
fn lex_operator() {
    let tmpl = "{{block 'test'}}{{ if .loggedIn && .role == 'admin' || .id >= 100 }} <p>Hello</p> {{ end }}{{ end }}";
    let expected = vec![
        Token::CodeStart,
        Token::Block,
        lit("test"),
        Token::CodeEnd,
        Token::CodeStart,
        Token::If,
        var("loggedIn"),
        Token::And,
        var("role"),
        Token::Eq,
        lit("admin"),
        Token::Or,
        var("id"),
        Token::Gte,
        lit("100"),
        Token::CodeEnd,
        markup("<p>Hello</p>"),
        Token::CodeStart,
        Token::End,
        Token::CodeEnd,
    ];
    check_start(tmpl, expected);
}

#[test]
fn lex_every_keyword_and_operator() {
    let tmpl = "{{ define extends import range block if else end set = == != >= > <= < && || }}";
    let expected = vec![
        Token::CodeStart,
        Token::Define,
        Token::Extends,
        Token::Import,
        Token::Range,
        Token::Block,
        Token::If,
        Token::Else,
        Token::End,
        Token::SetKeyword,
        Token::Assign,
        Token::Eq,
        Token::Neq,
        Token::Gte,
        Token::Gt,
        Token::Lte,
        Token::Lt,
        Token::And,
        Token::Or,
        Token::CodeEnd,
    ];
    check(tmpl, expected);
}

#[test]
fn keyword_table_matches_whole_words_only() {
    assert_eq!(Token::try_from_bslice(b"define"), Some(Token::Define));
    assert_eq!(Token::try_from_bslice(b"if"), Some(Token::If));
    assert_eq!(Token::try_from_bslice(b"=="), Some(Token::Eq));
    assert_eq!(Token::try_from_bslice(b"="), Some(Token::Assign));
    assert_eq!(Token::try_from_bslice(b"defin"), None);
    assert_eq!(Token::try_from_bslice(b"defined"), None);
    assert_eq!(Token::try_from_bslice(b"IF"), None);
    assert_eq!(Token::try_from_bslice(b""), None);
}

#[test]
fn lex_whitespace_only_markup_is_dropped() {
    check(" \n\t {{ end }} \n ", vec![Token::CodeStart, Token::End, Token::CodeEnd]);
    check("   \n", vec![]);
    check("", vec![]);
}

#[test]
fn lex_markup_is_trimmed() {
    check("  a b \n{{ end }}\n tail\t", vec![
        markup("a b"),
        Token::CodeStart,
        Token::End,
        Token::CodeEnd,
        markup("tail"),
    ]);
}

#[test]
fn lex_strings_keep_their_bytes() {
    check("{{ \"a 'b' }} c\" '' }}", vec![
        Token::CodeStart,
        lit("a 'b' }} c"),
        lit(""),
        Token::CodeEnd,
    ]);
}

#[test]
fn lex_bare_dot_is_an_empty_variable() {
    check("{{.}}", vec![Token::CodeStart, var(""), Token::CodeEnd]);
}

#[test]
fn lex_text_beyond_ascii() {
    check("gr\u{fc}\u{df} {{ 'h\u{e9}' }}", vec![
        markup("gr\u{fc}\u{df}"),
        Token::CodeStart,
        lit("h\u{e9}"),
        Token::CodeEnd,
    ]);
}

fn first_error(tmpl: &[u8]) -> TemplusError {
    let mut lexer = Lexer::new(tmpl);
    loop {
        match lexer.next() {
            Some(Ok(_)) => {}
            Some(Err(e)) => {
                assert!(lexer.next().is_none());
                return e;
            }
            None => panic!("the lexer met no error"),
        }
    }
}

#[test]
fn lex_unterminated_string() {
    let e = first_error(b"{{ 'abc }}");
    assert_eq!(
        e,
        TemplusError::LexerError(
            LexFault::UnterminatedString,
            Span { current_line: 1, current_column: 3 }
        )
    );
}

#[test]
fn lex_unterminated_directive() {
    let e = first_error(b"a\n{{ if");
    assert_eq!(
        e,
        TemplusError::LexerError(
            LexFault::UnterminatedDirective,
            Span { current_line: 2, current_column: 3 }
        )
    );
    let e = first_error(b"{{");
    assert_eq!(
        e,
        TemplusError::LexerError(
            LexFault::UnterminatedDirective,
            Span { current_line: 1, current_column: 2 }
        )
    );
    let e = first_error(b"{{ 12");
    assert_eq!(
        e,
        TemplusError::LexerError(
            LexFault::UnterminatedDirective,
            Span { current_line: 1, current_column: 5 }
        )
    );
}

#[test]
fn lex_unknown_word() {
    let e = first_error(b"{{ when }}");
    assert_eq!(
        e,
        TemplusError::LexerError(
            LexFault::UnknownWord,
            Span { current_line: 1, current_column: 3 }
        )
    );
    let e = first_error(b"{{ } }}");
    assert!(matches!(e, TemplusError::LexerError(LexFault::UnknownWord, _)));
}

#[test]
fn lex_invalid_text() {
    let e = first_error(b"{{ '\xff' }}");
    assert!(matches!(e, TemplusError::LexerError(LexFault::InvalidText, _)));
    let e = first_error(b"\xff\xfe");
    assert!(matches!(e, TemplusError::LexerError(LexFault::InvalidText, _)));
}

#[test]
fn lex_spans_follow_lines_and_columns() {
    let mut lexer = Lexer::new(b"ab\n  cd{{\n end }}");
    let (t, s) = lexer.next().unwrap().unwrap();
    assert_eq!(t, markup("ab\n  cd"));
    assert_eq!(s, Span { current_line: 2, current_column: 4 });
    let (t, s) = lexer.next().unwrap().unwrap();
    assert_eq!(t, Token::CodeStart);
    assert_eq!(s, Span { current_line: 2, current_column: 6 });
    let (t, s) = lexer.next().unwrap().unwrap();
    assert_eq!(t, Token::End);
    assert_eq!(s, Span { current_line: 3, current_column: 4 });
    let (t, s) = lexer.next().unwrap().unwrap();
    assert_eq!(t, Token::CodeEnd);
    assert_eq!(s, Span { current_line: 3, current_column: 7 });
    assert!(lexer.next().is_none());
}

#[test]
fn scanning_helpers() {
    assert_eq!(offset_to_delimiter(b"abc'de", b'\''), Some(3));
    assert_eq!(offset_to_delimiter(b"abc", b'\''), None);
    assert_eq!(offset_to_delimiter(b"", b'\''), None);
    assert_eq!(offset_to_any_delimiter(b"name }}", &[b' ', b'}']), Some(4));
    assert_eq!(offset_to_any_delimiter(b"name}}", &[b' ', b'}']), Some(4));
    assert_eq!(offset_to_any_delimiter(b"name", &[b' ', b'}']), None);
    assert_eq!(offset_to_number_end(b"123 }}"), Some(3));
    assert_eq!(offset_to_number_end(b"x"), Some(0));
    assert_eq!(offset_to_number_end(b"123"), None);
    assert_eq!(next_block_start(b"a\nb\n{{ x"), Some((4, 2)));
    assert_eq!(next_block_start(b"{{"), Some((0, 0)));
    assert_eq!(next_block_start(b"a { {"), None);
    assert_eq!(next_block_start(b"a {"), None);
}

#[test]
fn trimming_helpers() {
    assert!(is_whitespace_only(b" \t\n"));
    assert!(is_whitespace_only(b""));
    assert!(!is_whitespace_only(b" \r "));
    assert_eq!(btrim(b"  a b \n"), b"a b");
    assert_eq!(btrim(b"a"), b"a");
    assert_eq!(btrim(b" \n\t"), b"");
    assert_eq!(btrim(b""), b"");
    assert_eq!(btrim(b"\ra "), b"\ra");
}
