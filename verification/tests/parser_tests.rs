use kaleidoscope::ast::ASTNode;
use kaleidoscope::ast::Expression;
use kaleidoscope::ast::Function;
use kaleidoscope::ast::Prototype;
use kaleidoscope::lexer::tokenize;
use kaleidoscope::lexer::Token;
use kaleidoscope::lexer::TokenType;
use kaleidoscope::parser::parse;
use kaleidoscope::parser::parse_expr;
use kaleidoscope::parser::parse_extern;
use kaleidoscope::parser::parse_prototype;
use kaleidoscope::parser::ParserSettings;
use kaleidoscope::parser::PartParsingResult;

fn lit(s: &str) -> Expression {
    Expression::LiteralEpxr(s.to_string())
}

fn var(s: &str) -> Expression {
    Expression::VariableExpr(s.to_string())
}

fn bin(op: &str, lhs: Expression, rhs: Expression) -> Expression {
    Expression::BinaryExpr(op.to_string(), Box::new(lhs), Box::new(rhs))
}

fn proto(name: &str, args: &[&str]) -> Prototype {
    Prototype {
        name: name.to_string(),
        args: args.iter().map(|a| a.to_string()).collect(),
    }
}

fn anon(body: Expression) -> ASTNode {
    ASTNode::FunctionNode(Function { prototype: proto("", &[]), body })
}

fn toks(text: &str) -> Vec<Token> {
    tokenize(text).unwrap()
}

#[test]
fn test_parse_prototype_with_args() {
    let tokens = toks("foo(x, y)");
    let expected = proto("foo", &["x", "y"]);
    assert_eq!(parse_prototype(&tokens, 0), PartParsingResult::Good(expected, 6));
}

#[test]
fn test_parse_prototype_no_args() {
    let tokens = toks("foo()");
    let expected = proto("foo", &[]);
    assert_eq!(parse_prototype(&tokens, 0), PartParsingResult::Good(expected, 3));
}

#[test]
fn test_parse_extern() {
    let tokens = toks("extern foo(x, y)");
    let expected = ASTNode::ExternNode(proto("foo", &["x", "y"]));
    assert_eq!(parse_extern(&tokens, 0), PartParsingResult::Good(expected, 7));
}

#[test]
fn test_extern_declaration() {
    let mut settings = ParserSettings::new();
    let r = parse(&toks("extern foo(x, y)"), &vec![], &mut settings).unwrap();
    assert_eq!(r.0, vec![ASTNode::ExternNode(proto("foo", &["x", "y"]))]);
    assert_eq!(r.1, vec![]);
}

#[test]
fn test_precedence() {
    let mut settings = ParserSettings::new();
    let r = parse(&toks("1 + 2 * 3"), &vec![], &mut settings).unwrap();
    let expected = anon(bin("+", lit("1"), bin("*", lit("2"), lit("3"))));
    assert_eq!(r.0, vec![expected]);
    assert_eq!(r.1, vec![]);
}

#[test]
fn test_precedence_tight_first() {
    let mut settings = ParserSettings::new();
    let r = parse(&toks("1 * 2 + 3"), &vec![], &mut settings).unwrap();
    let expected = anon(bin("+", bin("*", lit("1"), lit("2")), lit("3")));
    assert_eq!(r.0, vec![expected]);
}

#[test]
fn test_left_associativity() {
    let mut settings = ParserSettings::new();
    let r = parse(&toks("1 - 2 - 3"), &vec![], &mut settings).unwrap();
    let expected = anon(bin("-", bin("-", lit("1"), lit("2")), lit("3")));
    assert_eq!(r.0, vec![expected]);
    assert_eq!(r.1, vec![]);
}

#[test]
fn test_resumability() {
    // the first piece of input ends inside the prototype: nothing is
    // produced and every token is handed back
    let mut settings = ParserSettings::new();
    let first = toks("def foo(x, y");
    let n_first = first.len();
    let (ast, leftover) = parse(&first, &vec![], &mut settings).unwrap();
    assert_eq!(ast, vec![]);
    assert_eq!(leftover, toks("def foo(x, y"));
    assert_eq!(leftover.len(), n_first);

    // the next line completes the definition; parsing the combined buffer
    // equals parsing the whole text in one call
    let mut combined = leftover;
    combined.extend(toks(" ) x + y"));
    let (ast, leftover) = parse(&combined, &ast, &mut settings).unwrap();
    assert_eq!(leftover, vec![]);
    assert_eq!(ast.len(), 1);

    let mut settings2 = ParserSettings::new();
    let (ast_oneshot, leftover_oneshot) =
        parse(&toks("def foo(x, y) x + y"), &vec![], &mut settings2).unwrap();
    assert_eq!(ast, ast_oneshot);
    assert_eq!(leftover_oneshot, vec![]);
}

#[test]
fn test_unknown_operator() {
    // `$` scans as no operator, so the token is built by hand: lexically an
    // operator, but absent from the precedence table
    let mut settings = ParserSettings::new();
    let tokens = vec![
        Token::new(TokenType::Numeric { lexeme: "1".to_string() }, 0),
        Token::new(TokenType::Operator { lexeme: "$".to_string() }, 0),
        Token::new(TokenType::Numeric { lexeme: "2".to_string() }, 0),
    ];
    assert_eq!(
        parse(&tokens, &vec![], &mut settings),
        Err("unknown operator found".to_string())
    );
}

#[test]
fn test_added_operator_parses() {
    let mut settings = ParserSettings::new();
    settings.add_operator("$".to_string(), 60);
    let tokens = vec![
        Token::new(TokenType::Numeric { lexeme: "1".to_string() }, 0),
        Token::new(TokenType::Operator { lexeme: "$".to_string() }, 0),
        Token::new(TokenType::Numeric { lexeme: "2".to_string() }, 0),
    ];
    let (ast, leftover) = parse(&tokens, &vec![], &mut settings).unwrap();
    assert_eq!(ast, vec![anon(bin("$", lit("1"), lit("2")))]);
    assert_eq!(leftover, vec![]);
}

#[test]
fn test_function_definition() {
    let mut settings = ParserSettings::new();
    let (ast, leftover) = parse(&toks("def add(a, b) a + b"), &vec![], &mut settings).unwrap();
    let expected = ASTNode::FunctionNode(Function {
        prototype: proto("add", &["a", "b"]),
        body: bin("+", var("a"), var("b")),
    });
    assert_eq!(ast, vec![expected]);
    assert_eq!(leftover, vec![]);
}

#[test]
fn test_call_expression() {
    let mut settings = ParserSettings::new();
    let (ast, leftover) = parse(&toks("foo(1, x + 2, bar())"), &vec![], &mut settings).unwrap();
    let expected = anon(Expression::CallExpr(
        "foo".to_string(),
        vec![
            lit("1"),
            bin("+", var("x"), lit("2")),
            Expression::CallExpr("bar".to_string(), vec![]),
        ],
    ));
    assert_eq!(ast, vec![expected]);
    assert_eq!(leftover, vec![]);
}

#[test]
fn test_unary_expression() {
    let mut settings = ParserSettings::new();
    let (ast, _) = parse(&toks("!x"), &vec![], &mut settings).unwrap();
    let expected = anon(Expression::UnaryExpr("!".to_string(), Box::new(var("x"))));
    assert_eq!(ast, vec![expected]);
}

#[test]
fn test_parenthesized_expression() {
    let mut settings = ParserSettings::new();
    let (ast, _) = parse(&toks("(1 + 2) * 3"), &vec![], &mut settings).unwrap();
    let expected = anon(bin("*", bin("+", lit("1"), lit("2")), lit("3")));
    assert_eq!(ast, vec![expected]);
}

#[test]
fn test_string_literal_expression() {
    let mut settings = ParserSettings::new();
    let (ast, _) = parse(&toks("\"hello\""), &vec![], &mut settings).unwrap();
    let expected = anon(Expression::StringExpr("hello".to_string()));
    assert_eq!(ast, vec![expected]);
}

#[test]
fn test_delimiters_are_skipped() {
    let mut settings = ParserSettings::new();
    let (ast, leftover) = parse(&toks("1; 2;"), &vec![], &mut settings).unwrap();
    assert_eq!(ast, vec![anon(lit("1")), anon(lit("2"))]);
    assert_eq!(leftover, vec![]);

    let (ast, leftover) = parse(&toks(";;;"), &vec![], &mut settings).unwrap();
    assert_eq!(ast, vec![]);
    assert_eq!(leftover, vec![]);
}

#[test]
fn test_ast_accumulates_across_calls() {
    let mut settings = ParserSettings::new();
    let (ast, _) = parse(&toks("1"), &vec![], &mut settings).unwrap();
    let (ast, _) = parse(&toks("2"), &ast, &mut settings).unwrap();
    assert_eq!(ast, vec![anon(lit("1")), anon(lit("2"))]);
}

#[test]
fn test_not_complete_keeps_tokens() {
    let mut settings = ParserSettings::new();

    let (ast, leftover) = parse(&toks("extern foo(x,"), &vec![], &mut settings).unwrap();
    assert_eq!(ast, vec![]);
    assert_eq!(leftover, toks("extern foo(x,"));

    let (ast, leftover) = parse(&toks("1 +"), &vec![], &mut settings).unwrap();
    assert_eq!(ast, vec![]);
    assert_eq!(leftover, toks("1 +"));

    let (ast, leftover) = parse(&toks("def"), &vec![], &mut settings).unwrap();
    assert_eq!(ast, vec![]);
    assert_eq!(leftover, toks("def"));
}

#[test]
fn test_parse_faults() {
    let mut settings = ParserSettings::new();
    assert_eq!(
        parse(&toks("def (x) 1"), &vec![], &mut settings),
        Err("expected function name".to_string())
    );
    assert_eq!(
        parse(&toks("def foo x"), &vec![], &mut settings),
        Err("expected '('".to_string())
    );
    assert_eq!(
        parse(&toks("def foo(x; y) 1"), &vec![], &mut settings),
        Err("expected ')'".to_string())
    );
    assert_eq!(
        parse(&toks("(1 2"), &vec![], &mut settings),
        Err("expected ')'".to_string())
    );
    assert_eq!(
        parse(&toks("1 + )"), &vec![], &mut settings),
        Err("unknown token when expecting an expression".to_string())
    );
}

#[test]
fn test_fault_leaves_earlier_ast_untouched() {
    let mut settings = ParserSettings::new();
    let (ast, _) = parse(&toks("1"), &vec![], &mut settings).unwrap();
    let kept = parse(&toks("def ("), &ast, &mut settings);
    assert!(kept.is_err());
    assert_eq!(ast, vec![anon(lit("1"))]);
}

#[test]
fn test_parse_expr_positions() {
    let settings = ParserSettings::new();
    let tokens = toks("1 + 2 * 3");
    match parse_expr(&tokens, 0, &settings) {
        PartParsingResult::Good(e, consumed) => {
            assert_eq!(e, bin("+", lit("1"), bin("*", lit("2"), lit("3"))));
            assert_eq!(consumed, 5);
        }
        other => panic!("expected a parsed expression, got {:?}", other),
    }
}
