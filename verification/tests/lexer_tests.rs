use kaleidoscope::lexer::is_op;
use kaleidoscope::lexer::tokenize;
use kaleidoscope::lexer::KBuff;
use kaleidoscope::lexer::LexError;
use kaleidoscope::lexer::Token;
use kaleidoscope::lexer::TokenType;

fn tok(t: TokenType) -> Token {
    Token::new(t, 0)
}

fn ident(s: &str) -> TokenType {
    TokenType::Ident { lexeme: s.to_string() }
}

fn num(s: &str) -> TokenType {
    TokenType::Numeric { lexeme: s.to_string() }
}

fn op(s: &str) -> TokenType {
    TokenType::Operator { lexeme: s.to_string() }
}

fn strlit(s: &str) -> TokenType {
    TokenType::String { lexeme: s.to_string() }
}

#[test]
fn lexer_test_get_next_char() {
    let mut buf = KBuff::new("def");
    assert_eq!(buf.consume().unwrap(), 'd');
    assert_eq!(buf.consume().unwrap(), 'e');
    assert_eq!(buf.consume().unwrap(), 'f');
    assert_eq!(buf.consume(), None);
    let mut buf = KBuff::new("extern");
    assert_eq!(buf.consume().unwrap(), 'e');
    assert_eq!(buf.consume().unwrap(), 'x');
    assert_eq!(buf.consume().unwrap(), 't');
    assert_eq!(buf.consume().unwrap(), 'e');
    assert_eq!(buf.consume().unwrap(), 'r');
    assert_eq!(buf.consume().unwrap(), 'n');
}

#[test]
fn lexer_test_parse_tokens() {
    let mut buf = KBuff::new("def");
    assert_eq!(buf.next_token().unwrap(), tok(TokenType::Def));
    let mut buf = KBuff::new("foo");
    assert_eq!(buf.next_token().unwrap(), tok(ident("foo")));
    let mut buf = KBuff::new("extern");
    assert_eq!(buf.next_token().unwrap(), tok(TokenType::Extern));
    let mut buf = KBuff::new(",");
    assert_eq!(buf.next_token().unwrap(), tok(TokenType::Comma));
    let mut buf = KBuff::new(";");
    assert_eq!(buf.next_token().unwrap(), tok(TokenType::Delimiter));
    let mut buf = KBuff::new("(");
    assert_eq!(buf.next_token().unwrap(), tok(TokenType::LParenthesis));
    let mut buf = KBuff::new(")");
    assert_eq!(buf.next_token().unwrap(), tok(TokenType::RParenthesis));
    let mut buf = KBuff::new("[");
    assert_eq!(buf.next_token().unwrap(), tok(TokenType::LBracket));
    let mut buf = KBuff::new("]");
    assert_eq!(buf.next_token().unwrap(), tok(TokenType::RBracket));
}

#[test]
fn parser_test_get_next_char() {
    let mut buf = KBuff::new("def");
    assert_eq!(buf.consume().unwrap(), 'd');
    assert_eq!(buf.consume().unwrap(), 'e');
    assert_eq!(buf.consume().unwrap(), 'f');
}

#[test]
fn parser_test_parse_tokens() {
    let mut buf = KBuff::new("def");
    assert_eq!(buf.next_token().unwrap(), tok(TokenType::Def));
    let mut buf = KBuff::new("foo");
    assert_eq!(buf.next_token().unwrap(), tok(ident("foo")));
    let mut buf = KBuff::new("extern");
    assert_eq!(buf.next_token().unwrap(), tok(TokenType::Extern));
}

#[test]
fn test_parse_consecutive_tokens() {
    let mut buf = KBuff::new("def foo(x, y) extern, ; ()[]");
    assert_eq!(buf.next_token().unwrap(), tok(TokenType::Def));
    assert_eq!(buf.next_token().unwrap(), tok(ident("foo")));
    assert_eq!(buf.next_token().unwrap(), tok(TokenType::LParenthesis));
    assert_eq!(buf.next_token().unwrap(), tok(ident("x")));
    assert_eq!(buf.next_token().unwrap(), tok(TokenType::Comma));
    assert_eq!(buf.next_token().unwrap(), tok(ident("y")));
    assert_eq!(buf.next_token().unwrap(), tok(TokenType::RParenthesis));
    assert_eq!(buf.next_token().unwrap(), tok(TokenType::Extern));
    assert_eq!(buf.next_token().unwrap(), tok(TokenType::Comma));
    assert_eq!(buf.next_token().unwrap(), tok(TokenType::Delimiter));
    assert_eq!(buf.next_token().unwrap(), tok(TokenType::LParenthesis));
    assert_eq!(buf.next_token().unwrap(), tok(TokenType::RParenthesis));
    assert_eq!(buf.next_token().unwrap(), tok(TokenType::LBracket));
    assert_eq!(buf.next_token().unwrap(), tok(TokenType::RBracket));
}

#[test]
fn test_parse_num() {
    let mut buf = KBuff::new("10");
    assert_eq!(buf.next_token().unwrap(), tok(num("10")));
    let mut buf = KBuff::new("20");
    assert_eq!(buf.next_token().unwrap(), tok(num("20")));
    let mut buf = KBuff::new("20.");
    assert_eq!(buf.next_token().unwrap(), tok(num("20.")));
    let mut buf = KBuff::new("0.20");
    assert_eq!(buf.next_token().unwrap(), tok(num("0.20")));
    let mut buf = KBuff::new("23.4");
    assert_eq!(buf.next_token().unwrap(), tok(num("23.4")));
}

#[test]
fn test_invalid_float_number() {
    let mut buf = KBuff::new(".10");
    assert!(buf.next_token().is_err());
    let mut buf = KBuff::new("1k0");
    assert!(buf.next_token().is_err());
    let mut buf = KBuff::new(".1k0");
    assert!(buf.next_token().is_err());
}

#[test]
fn test_parse_single_char_ops() {
    let mut buf = KBuff::new("+");
    assert_eq!(buf.next_token().unwrap(), tok(op("+")));
    let mut buf = KBuff::new("-");
    assert_eq!(buf.next_token().unwrap(), tok(op("-")));
    let mut buf = KBuff::new("*");
    assert_eq!(buf.next_token().unwrap(), tok(op("*")));
    let mut buf = KBuff::new("/");
    assert_eq!(buf.next_token().unwrap(), tok(op("/")));
    let mut buf = KBuff::new("=");
    assert_eq!(buf.next_token().unwrap(), tok(op("=")));
}

#[test]
fn test_parse_string() {
    let mut buf = KBuff::new("\"HelloWorld\"");
    assert_eq!(buf.next_token().unwrap(), tok(strlit("HelloWorld")));

    let mut buf = KBuff::new("def hello_world() \"HelloWorld\"");
    assert_eq!(buf.next_token().unwrap(), tok(TokenType::Def));
    assert_eq!(buf.next_token().unwrap(), tok(ident("hello_world")));
    assert_eq!(buf.next_token().unwrap(), tok(TokenType::LParenthesis));
    assert_eq!(buf.next_token().unwrap(), tok(TokenType::RParenthesis));
    assert_eq!(buf.next_token().unwrap(), tok(strlit("HelloWorld")));
}

#[test]
fn test_parse_mutli_char_ops() {
    let mut buf = KBuff::new("!=");
    assert_eq!(buf.next_token().unwrap(), tok(op("!=")));
    let mut buf = KBuff::new("==");
    assert_eq!(buf.next_token().unwrap(), tok(op("==")));

    let mut buf = KBuff::new("1 != 2");
    assert_eq!(buf.next_token().unwrap(), tok(num("1")));
    assert_eq!(buf.next_token().unwrap(), tok(op("!=")));
    assert_eq!(buf.next_token().unwrap(), tok(num("2")));
}

#[test]
fn test_all_operator_forms() {
    for sym in ["+", "-", "*", "/", "!", "<", ">", "=", "==", "!=", ">=", "<="] {
        assert_eq!(tokenize(sym).unwrap(), vec![tok(op(sym))], "operator {}", sym);
    }
}

#[test]
fn test_each_token_then_eof() {
    for lexeme in ["def", "extern", "foo", "10", "\"hi\"", "+", "==", ",", "[", "]", "(", ")", ";"]
    {
        let mut buf = KBuff::new(lexeme);
        let first = buf.next_token().unwrap();
        assert_ne!(first.token_t, TokenType::EOF, "lexeme {}", lexeme);
        assert_eq!(buf.next_token().unwrap(), tok(TokenType::EOF), "lexeme {}", lexeme);
        assert_eq!(buf.next_token().unwrap(), tok(TokenType::EOF), "lexeme {}", lexeme);
    }
}

#[test]
fn test_comment_token() {
    assert_eq!(
        tokenize("// a comment").unwrap(),
        vec![tok(TokenType::Comment { lexeme: "// a comment".to_string() })]
    );
    assert_eq!(
        tokenize("1 // rest of the line\n2").unwrap(),
        vec![
            tok(num("1")),
            tok(TokenType::Comment { lexeme: "// rest of the line".to_string() }),
            tok(num("2")),
        ]
    );
}

#[test]
fn test_number_then_member_dot() {
    // a decimal point directly before a letter ends the number; the point is
    // dropped and the letter starts the next token
    assert_eq!(
        tokenize("144.sqrt").unwrap(),
        vec![tok(num("144")), tok(ident("sqrt"))]
    );
}

#[test]
fn test_unterminated_string() {
    assert_eq!(tokenize("\"abc"), Err(LexError::UnterminatedString));
    assert_eq!(tokenize("def \"abc"), Err(LexError::UnterminatedString));
}

#[test]
fn test_unrecognized_character() {
    assert_eq!(tokenize("@"), Err(LexError::UnrecognizedChar('@')));
    assert_eq!(tokenize("$"), Err(LexError::UnrecognizedChar('$')));
}

#[test]
fn test_malformed_number() {
    assert_eq!(tokenize("1k0"), Err(LexError::MalformedNumber));
}

#[test]
fn test_concatenation_of_lexemes() {
    // tokenizing two space-separable lexemes equals tokenizing each alone
    let pairs = [
        ("def", "foo"),
        ("1", "2"),
        ("20.", "5"),
        ("x", "=="),
        ("\"a b\"", "extern"),
        ("<=", "y"),
    ];
    for (a, b) in pairs {
        let mut expected = tokenize(a).unwrap();
        expected.extend(tokenize(b).unwrap());
        let joined = format!("{} {}", a, b);
        assert_eq!(tokenize(&joined).unwrap(), expected, "pair {} / {}", a, b);
    }
}

#[test]
fn test_tokenize_method_matches_free_function() {
    let buf = KBuff::new("def foo(x) x + 1");
    assert_eq!(buf.tokenize().unwrap(), tokenize("def foo(x) x + 1").unwrap());
}

#[test]
fn test_is_op() {
    assert!(is_op('+'));
    assert!(is_op('-'));
    assert!(is_op('*'));
    assert!(is_op('/'));
    assert!(!is_op('%'));
    assert!(!is_op('a'));
}

#[test]
fn test_whitespace_only_input() {
    assert_eq!(tokenize("  \t\n  ").unwrap(), vec![]);
    assert_eq!(tokenize("").unwrap(), vec![]);
}

#[test]
fn test_nul_ends_stream() {
    // a NUL sentinel ends the stream; what follows is never reached
    assert_eq!(tokenize("1\u{0000}2").unwrap(), vec![tok(num("1"))]);
}
