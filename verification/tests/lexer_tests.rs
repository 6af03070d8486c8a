use vmtrans::lexer::{
    get_int, get_string_const, get_token, get_word, is_keyword, is_symbol, skip_whitespace,
    symbol_given, InvalidInt, Reader, Token,
};

fn all_tokens(text: &str) -> Vec<Token> {
    let mut rdr = Reader::new(text);
    let mut out = Vec::new();
    while let Some(t) = get_token(&mut rdr).unwrap() {
        out.push(t);
    }
    assert_eq!(rdr.peek(), None);
    out
}

fn id(s: &str) -> Token {
    Token::Identifier(s.to_string())
}

fn kw(s: &str) -> Token {
    Token::Keyword(s.to_string())
}

#[test]
fn tokens_of_a_statement() {
    assert_eq!(
        all_tokens("if (a < 3) { let b = 3; } "),
        vec![
            kw("if"),
            Token::Symbol('('),
            id("a"),
            Token::Symbol('<'),
            Token::IntConst(3),
            Token::Symbol(')'),
            Token::Symbol('{'),
            kw("let"),
            id("b"),
            Token::Symbol('='),
            Token::IntConst(3),
            Token::Symbol(';'),
            Token::Symbol('}'),
        ]
    );
}

#[test]
fn keywords() {
    for w in ["if", "else", "do", "let"] {
        assert!(is_keyword(w));
    }
    for w in ["", "If", "while", "lets", "d"] {
        assert!(!is_keyword(w));
    }
    assert_eq!(all_tokens("do else\tdone\nlet"), vec![kw("do"), kw("else"), id("done"), kw("let")]);
}

#[test]
fn symbols() {
    assert!(is_symbol('_'));
    assert!(is_symbol('+'));
    assert!(is_symbol(' '));
    assert!(is_symbol('"'));
    assert!(!is_symbol('a'));
    assert!(!is_symbol('Z'));
    assert!(!is_symbol('7'));
    assert!(!is_symbol('é'));
    assert!(symbol_given(false, 'x'));
    assert!(symbol_given(true, '_'));
    assert!(!symbol_given(true, 'x'));
    assert!(symbol_given(false, '_'));
    assert_eq!(
        all_tokens("a_b+1"),
        vec![id("a"), Token::Symbol('_'), id("b"), Token::Symbol('+'), Token::IntConst(1)]
    );
    assert_eq!(all_tokens("\r"), vec![Token::Symbol('\r')]);
}

#[test]
fn numbers() {
    assert_eq!(all_tokens("0 007 65535"), vec![Token::IntConst(0), Token::IntConst(7), Token::IntConst(65535)]);
    for text in ["65536", "12ab", "99999999999999999999", "  3x "] {
        let mut rdr = Reader::new(text);
        assert_eq!(get_token(&mut rdr), Err(InvalidInt));
    }
    let mut rdr = Reader::new("12+");
    assert_eq!(get_int(&mut rdr), Some(12));
    assert_eq!(rdr.peek(), Some('+'));
    let mut rdr = Reader::new("x1");
    assert_eq!(get_int(&mut rdr), None);
    assert_eq!(rdr.peek(), None);
    let mut rdr = Reader::new("+1");
    assert_eq!(get_int(&mut rdr), None);
    assert_eq!(rdr.peek(), Some('+'));
}

#[test]
fn string_constants() {
    assert_eq!(
        all_tokens("let s = \"a b; \n c\";"),
        vec![
            kw("let"),
            id("s"),
            Token::Symbol('='),
            Token::StringConst("a b; \n c".to_string()),
            Token::Symbol(';'),
        ]
    );
    assert_eq!(all_tokens("\"open"), vec![Token::StringConst("open".to_string())]);
    assert_eq!(all_tokens("\"\"\""), vec![Token::StringConst("".to_string()), Token::StringConst("".to_string())]);
    let mut rdr = Reader::new("abc\"def");
    assert_eq!(get_string_const(&mut rdr), "abc");
    assert_eq!(rdr.peek(), Some('d'));
}

#[test]
fn words_and_blanks() {
    let mut rdr = Reader::new(" \n\t x");
    skip_whitespace(&mut rdr);
    assert_eq!(rdr.peek(), Some('x'));
    skip_whitespace(&mut rdr);
    assert_eq!(rdr.peek(), Some('x'));
    let mut rdr = Reader::new("héllo wörld");
    assert_eq!(get_word(&mut rdr), "héllo");
    assert_eq!(get_word(&mut rdr), "");
    assert_eq!(rdr.peek(), Some(' '));
    assert_eq!(get_token(&mut rdr), Ok(Some(id("wörld"))));
    assert_eq!(get_token(&mut rdr), Ok(None));
    assert_eq!(get_token(&mut rdr), Ok(None));
    assert_eq!(all_tokens(""), vec![]);
    assert_eq!(all_tokens("  \n"), vec![]);
}
