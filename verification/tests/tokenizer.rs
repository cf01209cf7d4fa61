use templus::compiler::error::TemplusError;
use templus::compiler::tokenizer::{
    find_next_end, find_next_start, memchr, next_block, skip_whitespace, BlockType, Tokenizer,
};

#[test]
fn test_memchr() {
    let t = &[1, 2, 3, 4, 5];
    assert_eq!(Some(1), memchr(&t[..], 2));
    assert_eq!(Some(0), memchr(&t[1..], 2));
}

#[test]
fn test_start_end() {
    let bytes = "{3{% block %}3}".as_bytes();
    let (_start_type, start_offset) = find_next_start(bytes, 0).unwrap();
    let (_end_type, end_offset) = find_next_end(bytes, 0).unwrap();
    assert_eq!(start_offset, 2);
    assert_eq!(end_offset, 12);
}

#[test]
fn test_tokenizer_iterator() {
    let tmpl = "<html>{% block 'html' %}<p>Hello</p>{% end %}{% block js %}<script>alert('{{ foo }}')</script>{% end %}</html>";
    let mut tokenizer = Tokenizer::new(tmpl.as_bytes());
    let mut timeout = 0;
    loop {
        match tokenizer.next() {
            None => break,
            Some(token) => {
                let _t = token.expect("Invalid token");
            }
        }
        timeout += 1;
        if timeout > 100 {
            break;
        }
    }
}

#[test]
fn tokenizer_pieces_in_order() {
    let tmpl = "<a>{% b %}c{{ d }}{# e #}";
    let mut tokenizer = Tokenizer::new(tmpl.as_bytes());
    let mut seen = Vec::new();
    while let Some(piece) = tokenizer.next() {
        let piece = piece.unwrap();
        seen.push((*piece.block_type(), piece.start, piece.end, piece.code.to_vec(), piece.code()));
    }
    assert_eq!(
        seen,
        vec![
            (BlockType::Html, 0, 3, b"<a>".to_vec(), Some("<a>".to_string())),
            (BlockType::Code, 3, 10, b" b ".to_vec(), Some("b".to_string())),
            (BlockType::Html, 10, 11, b"c".to_vec(), Some("c".to_string())),
            (BlockType::Variable, 11, 18, b" d ".to_vec(), Some("d".to_string())),
            (BlockType::Comment, 18, 25, b" e ".to_vec(), Some("e".to_string())),
        ]
    );
}

#[test]
fn tokenizer_unclosed_block() {
    let mut tokenizer = Tokenizer::new(b"x{% never");
    assert_eq!(tokenizer.next().unwrap().unwrap().code, b"x");
    assert_eq!(
        tokenizer.next().unwrap().unwrap_err(),
        TemplusError::UnclosedBlock(BlockType::Code)
    );
    let mut tokenizer = Tokenizer::new(b"{#}");
    assert_eq!(
        tokenizer.next().unwrap().unwrap_err(),
        TemplusError::UnclosedBlock(BlockType::Comment)
    );
}

#[test]
fn marker_search() {
    assert_eq!(find_next_start(b"ab{{", 0), Some((BlockType::Variable, 2)));
    assert_eq!(find_next_start(b"ab{#", 1), Some((BlockType::Comment, 1)));
    assert_eq!(find_next_start(b"ab{", 0), None);
    assert_eq!(find_next_start(b"ab{}", 0), None);
    assert_eq!(find_next_start(b"ab{{", 9), None);
    assert_eq!(next_block(b"{%", 0), Some((BlockType::Code, 0)));
    assert_eq!(find_next_end(b"}a}}", 0), Some((BlockType::Variable, 3)));
    assert_eq!(find_next_end(b"a#}", 0), Some((BlockType::Comment, 2)));
    assert_eq!(find_next_end(b"{}", 0), None);
    assert_eq!(skip_whitespace(b" \t x"), Some(3));
    assert_eq!(skip_whitespace(b" \t "), None);
    assert_eq!(skip_whitespace(b""), None);
}

#[test]
fn block_text_is_trimmed_of_white_space() {
    let mut tokenizer = Tokenizer::new("{{ \u{a0}\r\n a\u{3000}b \u{2003}\t}}{% %}".as_bytes());
    let piece = tokenizer.next().unwrap().unwrap();
    assert_eq!(piece.code(), Some("a\u{3000}b".to_string()));
    let piece = tokenizer.next().unwrap().unwrap();
    assert_eq!(piece.code(), Some(String::new()));
    let mut tokenizer = Tokenizer::new(b"\xc3");
    assert_eq!(tokenizer.next().unwrap().unwrap().code(), None);
    let mut tokenizer = Tokenizer::new("\u{200b}x\u{feff}".as_bytes());
    assert_eq!(tokenizer.next().unwrap().unwrap().code(), Some("\u{200b}x\u{feff}".to_string()));
}
