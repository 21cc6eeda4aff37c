use rlox::ast_printer::AstPrinter;
use rlox::environment::Environment;
use rlox::error::{decimal_text, error, report, ParseError, RuntimeError};
use rlox::expr::Expr;
use rlox::keyword::keyword;
use rlox::literal::{BoolLiteral, Literal, LiteralType, NumberLiteral, StrLiteral};
use rlox::number::{equal, less, less_equal, negate};
use rlox::parser::Parser;
use rlox::scanner::Scanner;
use rlox::scope::Scope;
use rlox::stmt::Stmt;
use rlox::token::{Token, TokenType};

fn kinds(src: &str) -> Vec<TokenType> {
    let mut scanner = Scanner::new(src.to_string());
    scanner.scan_tokens().iter().map(|t| t.ttype()).collect()
}

fn ident(name: &str) -> Token {
    Token::new(TokenType::Identifier, name.to_string(), None, 1)
}

fn parse(src: &str) -> (Vec<Stmt>, Vec<String>) {
    let mut scanner = Scanner::new(src.to_string());
    let tokens = scanner.scan_tokens().clone();
    let mut parser = Parser::new(&tokens);
    let stmts = parser.parse();
    let errors = parser.errors().iter().map(|e| e.to_string()).collect();
    (stmts, errors)
}

#[test]
fn scanner_punctuation_and_operators() {
    assert_eq!(
        kinds("(){},.-+;*! != = == < <= > >= /"),
        vec![
            TokenType::LeftParen,
            TokenType::RightParen,
            TokenType::LeftBrace,
            TokenType::RightBrace,
            TokenType::Comma,
            TokenType::Dot,
            TokenType::Minus,
            TokenType::Plus,
            TokenType::Semicolon,
            TokenType::Star,
            TokenType::Bang,
            TokenType::BangEqual,
            TokenType::Equal,
            TokenType::EqualEqual,
            TokenType::Less,
            TokenType::LessEqual,
            TokenType::Greater,
            TokenType::GreaterEqual,
            TokenType::Slash,
            TokenType::Eof,
        ]
    );
}

#[test]
fn scanner_ends_with_one_eof() {
    assert_eq!(kinds(""), vec![TokenType::Eof]);
    assert_eq!(kinds("  \t\r\n"), vec![TokenType::Eof]);
}

#[test]
fn scanner_skips_comments() {
    assert_eq!(kinds("// all of this\n;"), vec![TokenType::Semicolon, TokenType::Eof]);
}

#[test]
fn scanner_counts_lines() {
    let mut scanner = Scanner::new("a\n\"x\ny\"\nb".to_string());
    let tokens = scanner.scan_tokens();
    let lines: Vec<usize> = tokens.iter().map(|t| t.line()).collect();
    assert_eq!(lines, vec![1, 3, 4, 4]);
}

#[test]
fn scanner_string_literal() {
    let mut scanner = Scanner::new("\"hi there\"".to_string());
    let tokens = scanner.scan_tokens();
    assert_eq!(tokens[0].ttype(), TokenType::String);
    assert_eq!(tokens[0].lexeme(), "\"hi there\"");
    match tokens[0].literal() {
        Some(Literal::Str(s)) => assert_eq!(s, "hi there"),
        _ => panic!("expected a string literal"),
    }
}

#[test]
fn scanner_number_literal() {
    let mut scanner = Scanner::new("12.25".to_string());
    let tokens = scanner.scan_tokens();
    assert_eq!(tokens[0].lexeme(), "12.25");
    match tokens[0].literal() {
        Some(Literal::Number(bits)) => assert_eq!(*bits, 12.25f64.to_bits()),
        _ => panic!("expected a number literal"),
    }
}

#[test]
fn scanner_trailing_dot_is_not_part_of_number() {
    let mut scanner = Scanner::new("1.".to_string());
    let tokens = scanner.scan_tokens();
    assert_eq!(tokens.len(), 3);
    assert_eq!(tokens[0].lexeme(), "1");
    assert_eq!(tokens[1].ttype(), TokenType::Dot);
}

#[test]
fn scanner_keywords_and_identifiers() {
    assert_eq!(
        kinds("and class else false for fun if nil or print return super this true var while whilex"),
        vec![
            TokenType::And,
            TokenType::Class,
            TokenType::Else,
            TokenType::False,
            TokenType::For,
            TokenType::Fun,
            TokenType::If,
            TokenType::Nil,
            TokenType::Or,
            TokenType::Print,
            TokenType::Return,
            TokenType::Super,
            TokenType::This,
            TokenType::True,
            TokenType::Var,
            TokenType::While,
            TokenType::Identifier,
            TokenType::Eof,
        ]
    );
}

#[test]
fn scanner_unicode_identifier() {
    let mut scanner = Scanner::new("été2 = 1;".to_string());
    let tokens = scanner.scan_tokens();
    assert_eq!(tokens[0].ttype(), TokenType::Identifier);
    assert_eq!(tokens[0].lexeme(), "été2");
    assert_eq!(tokens[1].ttype(), TokenType::Equal);
}

#[test]
fn scanner_lexical_errors() {
    let mut scanner = Scanner::new("#\n\"abc".to_string());
    let tokens = scanner.scan_tokens();
    assert_eq!(tokens.len(), 1);
    assert_eq!(
        scanner.errors(),
        &vec!["[line 1] Error: Unexpected character".to_string(), "[line 2] Error: Unterminated string".to_string()]
    );
}

#[test]
fn keyword_table() {
    assert_eq!(keyword("while"), Some(TokenType::While));
    assert_eq!(keyword("and"), Some(TokenType::And));
    assert_eq!(keyword("While"), None);
    assert_eq!(keyword(""), None);
}

#[test]
fn parser_precedence_tree() {
    let (stmts, errors) = parse("-1 + 2 * 3 == 7 or !x;");
    assert!(errors.is_empty());
    match &stmts[0] {
        Stmt::Expr(e) => assert_eq!(
            AstPrinter::pretty_print(e),
            "(or (== (+ (- 1) (* 2 3)) 7) (! var x))"
        ),
        _ => panic!("expected an expression statement"),
    }
}

#[test]
fn parser_assignment_is_right_associative() {
    let (stmts, _) = parse("a = b = c;");
    match &stmts[0] {
        Stmt::Expr(e) => assert_eq!(AstPrinter::pretty_print(e), "(a = (b = var c))"),
        _ => panic!("expected an expression statement"),
    }
}

#[test]
fn parser_grouping_and_literals() {
    let (stmts, _) = parse("(nil != \"s\") and true;");
    match &stmts[0] {
        Stmt::Expr(e) => assert_eq!(AstPrinter::pretty_print(e), "(and (group (!= nil s)) true)"),
        _ => panic!("expected an expression statement"),
    }
}

#[test]
fn parser_for_desugars_to_while() {
    let (stmts, errors) = parse("for (var i = 0; i < 3; i = i + 1) print i;");
    assert!(errors.is_empty());
    assert_eq!(stmts.len(), 1);
    match &stmts[0] {
        Stmt::Block(items) => {
            assert_eq!(items.len(), 2);
            assert!(matches!(items[0], Stmt::Var(_, Some(_))));
            match &items[1] {
                Stmt::While(_, body) => match body.as_ref() {
                    Stmt::Block(inner) => {
                        assert_eq!(inner.len(), 2);
                        assert!(matches!(inner[0], Stmt::Print(_)));
                        assert!(matches!(inner[1], Stmt::Expr(_)));
                    }
                    _ => panic!("expected the body and increment in a block"),
                },
                _ => panic!("expected a while loop"),
            }
        }
        _ => panic!("expected a block"),
    }
}

#[test]
fn parser_for_without_clauses_loops_on_true() {
    let (stmts, _) = parse("for (;;) print 1;");
    match &stmts[0] {
        Stmt::While(Expr::Literal(Literal::Boolean(true)), body) => {
            assert!(matches!(body.as_ref(), Stmt::Print(_)))
        }
        _ => panic!("expected a while loop on true"),
    }
}

#[test]
fn parser_recovers_after_error() {
    let (stmts, errors) = parse("var = 1; print 2; { print ; } print 3;");
    assert_eq!(
        errors,
        vec![
            "[line 1] Error at '=': Expect variable name".to_string(),
            "[line 1] Error at ';': Expect expression".to_string()
        ]
    );
    assert_eq!(stmts.len(), 3);
    assert!(matches!(stmts[0], Stmt::Print(_)));
    match &stmts[1] {
        Stmt::Block(items) => assert!(items.is_empty()),
        _ => panic!("expected a block"),
    }
}

#[test]
fn parser_missing_closing_paren() {
    let (stmts, errors) = parse("print (1;");
    assert!(stmts.is_empty());
    assert_eq!(errors, vec!["[line 1] Error at ';': Expect ')' after expression".to_string()]);
}

#[test]
fn parser_if_else() {
    let (stmts, _) = parse("if (a) print 1; else print 2;");
    assert!(matches!(stmts[0], Stmt::If(_, _, Some(_))));
}

#[test]
fn environment_define_get_assign() {
    let mut env = Environment::new();
    assert!(env.get(ident("a")).is_none());
    assert!(env.assign(ident("a"), Literal::Nil).is_none());
    env.define("a".to_string(), Literal::Number(1.0f64.to_bits()));
    assert!(matches!(env.get(ident("a")), Some(Literal::Number(_))));
    assert!(env.assign(ident("a"), Literal::Boolean(true)).is_some());
    assert!(matches!(env.get(ident("a")), Some(Literal::Boolean(true))));
    env.define("a".to_string(), Literal::Nil);
    assert!(matches!(env.get(ident("a")), Some(Literal::Nil)));
}

#[test]
fn scope_shadowing_and_unwrap() {
    let mut scope = Scope::new();
    scope.define("a".to_string(), Literal::Boolean(false));
    scope.wrap();
    scope.define("a".to_string(), Literal::Boolean(true));
    assert!(matches!(scope.get(ident("a")), Ok(Literal::Boolean(true))));
    scope.unwrap();
    assert!(matches!(scope.get(ident("a")), Ok(Literal::Boolean(false))));
}

#[test]
fn scope_assign_reaches_outer() {
    let mut scope = Scope::new();
    scope.define("a".to_string(), Literal::Nil);
    scope.wrap();
    assert!(scope.assign(ident("a"), Literal::Str("x".to_string())).is_ok());
    scope.unwrap();
    assert!(matches!(scope.get(ident("a")), Ok(Literal::Str(s)) if s == "x"));
}

#[test]
fn scope_undefined_name() {
    let mut scope = Scope::new();
    let err = scope.assign(ident("zz"), Literal::Nil).unwrap_err();
    assert_eq!(err.to_string(), "[line 1] Error at 'zz': Undefined var 'zz'");
    assert!(scope.get(ident("zz")).is_err());
}

#[test]
fn literal_kinds_and_equality() {
    assert_eq!(Literal::Nil.ltype(), LiteralType::Nil);
    assert_eq!(Literal::Boolean(false).ltype(), LiteralType::False);
    assert!(Literal::Nil.is_equal(&Literal::Nil));
    assert!(!Literal::Nil.is_equal(&Literal::Boolean(false)));
    assert!(!Literal::Number(0).is_equal(&Literal::Str("0".to_string())));
    let nan = f64::NAN.to_bits();
    assert!(!Literal::Number(nan).is_equal(&Literal::Number(nan)));
    assert!(Literal::Number(0.0f64.to_bits()).is_equal(&Literal::Number((-0.0f64).to_bits())));
    assert!(Literal::Number(0).is_truthy());
    assert!(!Literal::Boolean(false).is_truthy());
}

#[test]
fn literal_structs() {
    assert_eq!(BoolLiteral::new(true).ltype(), LiteralType::True);
    assert_eq!(BoolLiteral::new(false).ltype(), LiteralType::False);
    assert!(matches!(BoolLiteral::new(true).into_literal(), Literal::Boolean(true)));
    assert_eq!(StrLiteral::new("s".to_string()).ltype(), LiteralType::String);
    assert!(matches!(StrLiteral::new("s".to_string()).into_literal(), Literal::Str(s) if s == "s"));
    assert_eq!(NumberLiteral::new(5).ltype(), LiteralType::Number);
    assert!(matches!(NumberLiteral::new(5).into_literal(), Literal::Number(5)));
}

fn number_of(src: &str) -> u64 {
    let mut scanner = Scanner::new(src.to_string());
    let tokens = scanner.scan_tokens();
    match tokens[0].literal() {
        Some(Literal::Number(bits)) => *bits,
        _ => panic!("expected a number literal"),
    }
}

#[test]
fn number_comparisons() {
    let b = |x: f64| x.to_bits();
    assert!(less(b(-1.0), b(0.5)));
    assert!(!less(b(f64::NAN), b(0.5)));
    assert!(!less_equal(b(0.5), b(f64::NAN)));
    assert!(less_equal(b(-0.0), b(0.0)));
    assert!(less(b(f64::NEG_INFINITY), b(-1e300)));
    assert!(less(b(-2.0), b(-1.0)));
    assert!(!less(b(2.0), b(1.0)));
    assert!(less(b(5e-324), b(1e-300)));
    assert!(equal(b(0.0), b(-0.0)));
    assert!(!equal(b(f64::NAN), b(f64::NAN)));
    assert_eq!(negate(b(2.5)), b(-2.5));
    assert_eq!(negate(b(0.0)), b(-0.0));
}

#[test]
fn numeral_parsing() {
    assert_eq!(number_of("0.1"), 0.1f64.to_bits());
    assert_eq!(number_of("9007199254740993"), 9007199254740993f64.to_bits());
    assert_eq!(number_of("00012.500"), 12.5f64.to_bits());
    assert_eq!(number_of("123456789012345678901234567890"), 123456789012345678901234567890f64.to_bits());
}

#[test]
fn diagnostics_text() {
    assert_eq!(report(12, " at 'x'".to_string(), "bad".to_string()), "[line 12] Error at 'x': bad");
    assert_eq!(error(7, "oops".to_string()), "[line 7] Error: oops");
    assert_eq!(decimal_text(0), "0");
    assert_eq!(decimal_text(1903), "1903");
    let eof = Token::new(TokenType::Eof, String::new(), None, 4);
    assert_eq!(ParseError::new("m".to_string(), eof).to_string(), "[line 4] Error at end: m");
    let plus = Token::new(TokenType::Plus, "+".to_string(), None, 2);
    assert_eq!(RuntimeError::new("n".to_string(), plus).to_string(), "[line 2] Error at '+': n");
}

#[test]
fn printer_renders_numbers_and_names() {
    let (stmts, _) = parse("x = 2.5;");
    match &stmts[0] {
        Stmt::Expr(e) => {
            assert_eq!(AstPrinter::pretty_print(e), "(x = 2.5)");
        }
        _ => panic!("expected an expression statement"),
    }
}

#[test]
fn parser_error_messages() {
    let cases = [
        ("if 1) print 1;", "[line 1] Error at '1': Expect '(' after 'if'"),
        ("if (1 print 1;", "[line 1] Error at 'print': Expect ')' after if condition"),
        ("{ print 1;", "[line 1] Error at end: Expect '}' after block"),
        ("print 1 2;", "[line 1] Error at '2': Expect ';' after value"),
        ("while 1) print 1;", "[line 1] Error at '1': Expect '(' after 'while'"),
        ("while (1 print 1;", "[line 1] Error at 'print': Expect ')' after condition"),
        ("for x) print 1;", "[line 1] Error at 'x': Expect '(' after 'for'"),
        ("for (;1 print 1;", "[line 1] Error at 'print': Expect ';' after loop condition"),
        ("for (;;1 print 1;", "[line 1] Error at 'print': Expect ')' after for clauses"),
        ("1 2;", "[line 1] Error at '2': Expect ';' after expression"),
    ];
    for (src, expected) in cases.iter() {
        let (_, errors) = parse(src);
        assert_eq!(errors, vec![expected.to_string()], "for {}", src);
    }
}

#[test]
fn parser_literal_tokens_need_values() {
    let tokens = vec![
        Token::new(TokenType::Number, "1".to_string(), None, 1),
        Token::new(TokenType::Semicolon, ";".to_string(), None, 1),
        Token::new(TokenType::String, "\"s\"".to_string(), None, 2),
        Token::new(TokenType::Semicolon, ";".to_string(), None, 2),
        Token::new(TokenType::Eof, String::new(), None, 2),
    ];
    let mut parser = Parser::new(&tokens);
    let stmts = parser.parse();
    assert!(stmts.is_empty());
    let errors: Vec<String> = parser.errors().iter().map(|e| e.to_string()).collect();
    assert_eq!(
        errors,
        vec!["[line 1] Error at ';': Expect number".to_string(), "[line 2] Error at ';': Expect string".to_string()]
    );
}

#[test]
fn interpreter_rejects_unknown_operator() {
    let plus = Token::new(TokenType::Plus, "+".to_string(), None, 3);
    let stmt = Stmt::Print(Expr::Unary(plus, Box::new(Expr::Literal(Literal::Nil))));
    let mut interpreter = rlox::interpreter::Interpreter::new();
    interpreter.interpret(vec![stmt]);
    let out = interpreter.take_output();
    assert_eq!(out.len(), 1);
    match &out[0] {
        rlox::interpreter::Output::Failed(e) => {
            assert_eq!(e.to_string(), "[line 3] Error at '+': Unknown operator")
        }
        _ => panic!("expected a runtime error"),
    }
}
