use lox::ast_printer::AstPrinter;
use lox::environment::Environment;
use lox::error::{LoxError, RuntimeError};
use lox::expr::{Binary, Expr, Literal as LiteralExpr, Variable};
use lox::interpreter::Interpreter;
use lox::number::Number;
use lox::parser::{Expected, ParseError, Parser};
use lox::scanner::{ScanError, Scanner};
use lox::stmt::{Block, Expression, Print, Stmt, Var};
use lox::token::Token;
use lox::token_type::{KeyWord, Literal, TokenType};
use lox::util::Utils;

fn scan(source: &str) -> (Vec<Token>, bool, Vec<ScanError>) {
    let mut scanner = Scanner::new(source.to_string());
    scanner.scan_tokens();
    let had_error = scanner.has_error();
    let errors = scanner.errors().clone();
    (scanner.get_tokens(), had_error, errors)
}

fn kinds(tokens: &[Token]) -> Vec<TokenType> {
    tokens.iter().map(|t| t.token_type).collect()
}

fn number_text(t: &Token) -> String {
    match &t.literal {
        Some(l) => Utils::print_literal(l),
        None => panic!("no literal"),
    }
}

fn parse_expr(source: &str) -> Result<Expr, ParseError> {
    let (tokens, had_error, _) = scan(source);
    assert!(!had_error);
    Parser::new(tokens).expression()
}

fn evaluate(source: &str) -> Result<Literal, RuntimeError> {
    let expr = parse_expr(source).expect("parses");
    Interpreter::new().interpret_expression(&expr)
}

fn evaluate_text(source: &str) -> String {
    Utils::print_literal(&evaluate(source).expect("evaluates"))
}

fn run(source: &str) -> (Interpreter, Result<(), RuntimeError>) {
    let (tokens, had_error, _) = scan(source);
    assert!(!had_error);
    let program = Parser::new(tokens).parse().expect("parses");
    let mut interpreter = Interpreter::new();
    let result = interpreter.interpret(&program);
    (interpreter, result)
}

fn ident(name: &str) -> Token {
    Token::new(TokenType::Identifier, name.to_string(), None, 1)
}

fn read_var(interpreter: &Interpreter, name: &str) -> Result<Literal, RuntimeError> {
    interpreter.environment().get(ident(name))
}

#[test]
fn two_char_operators_are_single_tokens() {
    for (src, kind) in [
        ("==", TokenType::EqualEqual),
        ("!=", TokenType::BangEqual),
        ("<=", TokenType::LessEqual),
        (">=", TokenType::GreaterEqual),
    ] {
        let (tokens, had_error, _) = scan(src);
        assert!(!had_error);
        assert_eq!(kinds(&tokens), vec![kind, TokenType::EOF]);
        assert_eq!(tokens[0].lexeme, src);
    }
}

#[test]
fn maximal_munch_then_single() {
    let (tokens, _, _) = scan("===!<>");
    assert_eq!(
        kinds(&tokens),
        vec![
            TokenType::EqualEqual,
            TokenType::Equal,
            TokenType::Bang,
            TokenType::Less,
            TokenType::Greater,
            TokenType::EOF
        ]
    );
}

#[test]
fn scan_parenthesised_sum() {
    let (tokens, had_error, errors) = scan("(1+2))");
    assert!(!had_error);
    assert!(errors.is_empty());
    assert_eq!(
        kinds(&tokens),
        vec![
            TokenType::LeftParan,
            TokenType::Number,
            TokenType::Plus,
            TokenType::Number,
            TokenType::RightParan,
            TokenType::RightParan,
            TokenType::EOF
        ]
    );
    assert_eq!(number_text(&tokens[1]), "1");
    assert_eq!(number_text(&tokens[3]), "2");
    assert_eq!(tokens[6].lexeme, "");
}

#[test]
fn unterminated_string_is_an_error_without_token() {
    let (tokens, had_error, errors) = scan("\"abc");
    assert!(had_error);
    assert!(tokens.iter().all(|t| t.token_type != TokenType::String));
    assert_eq!(kinds(&tokens), vec![TokenType::EOF]);
    assert_eq!(errors, vec![ScanError::UnterminatedString { line: 1 }]);
    assert_eq!(errors[0].message(), "[line 1] Error: Unterminated string.");
}

#[test]
fn empty_source_gives_only_eof() {
    let (tokens, had_error, _) = scan("");
    assert!(!had_error);
    assert_eq!(kinds(&tokens), vec![TokenType::EOF]);
    assert_eq!(tokens[0].line, 1);
}

#[test]
fn string_literal_and_lines() {
    let (tokens, had_error, _) = scan("\"a\nb\" x\n// note\ny");
    assert!(!had_error);
    assert_eq!(
        kinds(&tokens),
        vec![TokenType::String, TokenType::Identifier, TokenType::Identifier, TokenType::EOF]
    );
    assert_eq!(tokens[0].lexeme, "\"a\nb\"");
    assert_eq!(number_text(&tokens[0]), "a\nb");
    assert_eq!(tokens[0].line, 1);
    assert_eq!(tokens[1].line, 2);
    assert_eq!(tokens[2].line, 4);
    assert_eq!(tokens[3].line, 4);
}

#[test]
fn unexpected_characters_are_collected() {
    let (tokens, had_error, errors) = scan("1 @ 2\n#");
    assert!(had_error);
    assert_eq!(kinds(&tokens), vec![TokenType::Number, TokenType::Number, TokenType::EOF]);
    assert_eq!(
        errors,
        vec![
            ScanError::UnexpectedCharacter { line: 1, c: '@' },
            ScanError::UnexpectedCharacter { line: 2, c: '#' }
        ]
    );
    assert_eq!(errors[0].message(), "[line 1] Error: Unexpected character: @");
}

#[test]
fn number_literals() {
    let (tokens, _, _) = scan("12.50 7. 0.125");
    assert_eq!(
        kinds(&tokens),
        vec![TokenType::Number, TokenType::Number, TokenType::Dot, TokenType::Number, TokenType::EOF]
    );
    assert_eq!(tokens[0].lexeme, "12.50");
    assert_eq!(number_text(&tokens[0]), "12.5");
    assert_eq!(number_text(&tokens[1]), "7");
    assert_eq!(number_text(&tokens[3]), "0.125");
}

#[test]
fn large_and_long_number_literals_still_scan() {
    let (tokens, had_error, errors) = scan("9999999999999999999 0.12345678901234567890123 9223372036854775807");
    assert!(!had_error);
    assert!(errors.is_empty());
    assert_eq!(
        kinds(&tokens),
        vec![TokenType::Number, TokenType::Number, TokenType::Number, TokenType::EOF]
    );
    assert_eq!(number_text(&tokens[0]), "inf");
    assert_eq!(number_text(&tokens[1]), "0.1234567890123456");
    assert_eq!(number_text(&tokens[2]), "9223372036854775807");
}

#[test]
fn keywords_and_identifiers() {
    let (tokens, _, _) = scan("var _x1 = nil and orchid print");
    assert_eq!(
        kinds(&tokens),
        vec![
            TokenType::Var,
            TokenType::Identifier,
            TokenType::Equal,
            TokenType::Nil,
            TokenType::And,
            TokenType::Identifier,
            TokenType::Print,
            TokenType::EOF
        ]
    );
    assert_eq!(tokens[1].lexeme, "_x1");
    let table = KeyWord::make_keywords();
    assert_eq!(table.len(), 16);
    let word: Vec<char> = "while".chars().collect();
    assert_eq!(KeyWord::lookup(&table, &word), Some(TokenType::While));
    let other: Vec<char> = "whilst".chars().collect();
    assert_eq!(KeyWord::lookup(&table, &other), None);
}

#[test]
fn token_listing_lines() {
    let (tokens, _, _) = scan("(\"hi\" 3.5 x");
    let lines: Vec<String> = tokens.iter().map(|t| t.describe()).collect();
    assert_eq!(
        lines,
        vec!["LEFT_PAREN ( null", "STRING \"hi\" hi", "NUMBER 3.5 3.5", "IDENTIFIER x null", "EOF  null"]
    );
}

#[test]
fn precedence_in_sexpression() {
    let expr = parse_expr("1 + 2 * 3").expect("parses");
    assert_eq!(AstPrinter {}.print(&expr), "(+ 1 (* 2 3))");
}

#[test]
fn left_associative_and_grouping() {
    let expr = parse_expr("1 - 2 - 3").expect("parses");
    assert_eq!(AstPrinter {}.print(&expr), "(- (- 1 2) 3)");
    let expr = parse_expr("-(\"a\") == !true").expect("parses");
    assert_eq!(AstPrinter {}.print(&expr), "(== (- (group a)) (! true))");
    let expr = parse_expr("x >= nil").expect("parses");
    assert_eq!(AstPrinter {}.print(&expr), "(>= (x) nil)");
}

#[test]
fn missing_close_paren_is_a_parse_error() {
    let err = parse_expr("(1 + 2").expect_err("must fail");
    match &err {
        ParseError::ExpectedToken { line, found, expected } => {
            assert_eq!(*line, 1);
            assert_eq!(*found, None);
            assert_eq!(*expected, Expected::ClosingParen);
        }
        _ => panic!("wrong error"),
    }
    assert_eq!(err.message(), "[line 1] Error at end: Expect ')' after expression.");
    let err = parse_expr("(1 + 2\n;").expect_err("must fail");
    assert_eq!(err.message(), "[line 2] Error at ';': Expect ')' after expression.");
}

#[test]
fn missing_expression_is_a_parse_error() {
    let err = parse_expr("1 +").expect_err("must fail");
    assert_eq!(err.message(), "[line 1] Error at end: Expect expression.");
    let err = parse_expr(")").expect_err("must fail");
    assert_eq!(err.message(), "[line 1] Error at ')': Expect expression.");
}

#[test]
fn statement_parse_errors() {
    let (tokens, _, _) = scan("var = 1;");
    let err = Parser::new(tokens).parse().expect_err("must fail");
    assert_eq!(err.message(), "[line 1] Error at '=': Expect variable name.");
    let (tokens, _, _) = scan("print 1");
    let err = Parser::new(tokens).parse().expect_err("must fail");
    assert_eq!(err.message(), "[line 1] Error at end: Expect ';' after value.");
    let (tokens, _, _) = scan("1 + 1 print 2;");
    let err = Parser::new(tokens).parse().expect_err("must fail");
    assert_eq!(err.message(), "[line 1] Error at 'print': Expect ';' after expression.");
}

#[test]
fn program_parses_to_statements() {
    let (tokens, _, _) = scan("var a; var b = 2; print b; b;");
    let program = Parser::new(tokens).parse().expect("parses");
    assert_eq!(program.len(), 4);
    match &program[0] {
        Stmt::Var(v) => {
            assert_eq!(v.name.lexeme, "a");
            assert!(v.initializer.is_none());
        }
        _ => panic!("expected var"),
    }
    assert!(matches!(program[1], Stmt::Var(_)));
    assert!(matches!(program[2], Stmt::Print(_)));
    assert!(matches!(program[3], Stmt::Expression(_)));
}

#[test]
fn cross_type_equality_never_holds() {
    assert_eq!(evaluate_text("\"a\" == 1"), "false");
    assert_eq!(evaluate_text("\"a\" != 1"), "true");
    assert_eq!(evaluate_text("1 == \"1\""), "false");
}

#[test]
fn assignment_updates_and_undefined_fails() {
    let (interpreter, result) = run("var x = 1; x = x + 1;");
    assert!(result.is_ok());
    assert_eq!(Utils::print_literal(&read_var(&interpreter, "x").expect("bound")), "2");
    let (_, result) = run("x = 1;");
    match result {
        Err(RuntimeError::UndefinedVariable { name, line }) => {
            assert_eq!(name, "x");
            assert_eq!(line, 1);
        }
        _ => panic!("expected an undefined variable"),
    }
}

#[test]
fn literal_evaluation_is_stable() {
    let expr = Expr::Literal(LiteralExpr { value: Literal::String("hi".to_string()) });
    let mut interpreter = Interpreter::new();
    for _ in 0..3 {
        match interpreter.interpret_expression(&expr) {
            Ok(Literal::String(s)) => assert_eq!(s, "hi"),
            _ => panic!("literal changed"),
        }
    }
    let n = Expr::Literal(LiteralExpr { value: Literal::Number(Number::from_int(42)) });
    let first = Utils::print_literal(&interpreter.interpret_expression(&n).expect("ok"));
    let second = Utils::print_literal(&interpreter.interpret_expression(&n).expect("ok"));
    assert_eq!(first, "42");
    assert_eq!(first, second);
}

#[test]
fn arithmetic_and_formatting() {
    assert_eq!(evaluate_text("1 + 2 * 3"), "7");
    assert_eq!(evaluate_text("(1 + 2) * 3"), "9");
    assert_eq!(evaluate_text("7 / 2"), "3.5");
    assert_eq!(evaluate_text("1 / 3"), "0.3333333333333333");
    assert_eq!(evaluate_text("0.1 + 0.2"), "0.3");
    assert_eq!(evaluate_text("2 - 5"), "-3");
    assert_eq!(evaluate_text("-2.5 * 2"), "-5");
    assert_eq!(evaluate_text("10 / 4 * 2"), "5");
}

#[test]
fn division_by_zero_gives_infinities_and_nan() {
    assert_eq!(evaluate_text("1 / 0"), "inf");
    assert_eq!(evaluate_text("-1 / 0"), "-inf");
    assert_eq!(evaluate_text("0 / 0"), "NaN");
    assert_eq!(evaluate_text("0 / 0 == 0 / 0"), "false");
    assert_eq!(evaluate_text("1 / 0 > 1000"), "true");
    assert_eq!(evaluate_text("1 / 0 - 1 / 0"), "NaN");
}

#[test]
fn comparisons() {
    assert_eq!(evaluate_text("1 < 2"), "true");
    assert_eq!(evaluate_text("2 <= 2"), "true");
    assert_eq!(evaluate_text("3 > 4"), "false");
    assert_eq!(evaluate_text("0.5 >= 0.25"), "true");
    assert_eq!(evaluate_text("1.0 == 1"), "true");
    assert_eq!(evaluate_text("1 != 2"), "true");
}

#[test]
fn strings_booleans_and_nil() {
    assert_eq!(evaluate_text("\"ab\" + \"cd\""), "abcd");
    assert_eq!(evaluate_text("\"ab\" == \"ab\""), "true");
    assert_eq!(evaluate_text("true == false"), "false");
    assert_eq!(evaluate_text("true != false"), "true");
    assert_eq!(evaluate_text("nil == nil"), "true");
    assert_eq!(evaluate_text("nil != nil"), "false");
    assert_eq!(evaluate_text("nil == 1"), "false");
    assert_eq!(evaluate_text("1 != nil"), "true");
}

#[test]
fn truthiness_of_bang() {
    assert_eq!(evaluate_text("!0"), "true");
    assert_eq!(evaluate_text("!5"), "false");
    assert_eq!(evaluate_text("!nil"), "true");
    assert_eq!(evaluate_text("!true"), "false");
    assert_eq!(evaluate_text("!!false"), "false");
}

#[test]
fn runtime_errors() {
    match evaluate("!\"s\"") {
        Err(RuntimeError::InvalidOperator { operator, .. }) => assert_eq!(operator, "!"),
        _ => panic!("expected an invalid operator"),
    }
    match evaluate("-\"s\"") {
        Err(e) => {
            assert!(matches!(e, RuntimeError::NegateNonNumber { line: 1 }));
            assert_eq!(e.message(), "[line 1] Operand must be a number.");
        }
        _ => panic!("expected a negation error"),
    }
    match evaluate("\"a\" - \"b\"") {
        Err(e) => assert_eq!(e.message(), "[line 1] Invalid operator '-'."),
        _ => panic!("expected an invalid operator"),
    }
    assert!(matches!(evaluate("true + 1"), Err(RuntimeError::InvalidOperator { .. })));
    assert!(matches!(evaluate("1 < \"a\""), Err(RuntimeError::InvalidOperator { .. })));
    assert!(matches!(evaluate("nil + nil"), Err(RuntimeError::InvalidOperator { .. })));
    match evaluate("y") {
        Err(e) => assert_eq!(e.message(), "[line 1] Undefined variable 'y'."),
        _ => panic!("expected an undefined variable"),
    }
}

#[test]
fn print_statements_write_lines() {
    let (interpreter, result) = run("var a = \"x\"; print a + \"y\"; print 1 / 2; print nil; var a = 3; print a;");
    assert!(result.is_ok());
    assert_eq!(interpreter.output().clone(), vec!["xy", "0.5", "nil", "3"]);
}

#[test]
fn run_stops_at_first_failure() {
    let (interpreter, result) = run("print 1; print -nil; print 2;");
    assert!(result.is_err());
    assert_eq!(interpreter.output().clone(), vec!["1"]);
}

#[test]
fn environment_scopes() {
    let mut global = Environment::global();
    global.define("a".to_string(), Literal::Bool(true));
    assert!(matches!(global.get(ident("a")), Ok(Literal::Bool(true))));
    assert!(global.get(ident("b")).is_err());
    let mut local = Environment::local(global);
    local.define("b".to_string(), Literal::Nil);
    assert!(matches!(local.get(ident("a")), Ok(Literal::Bool(true))));
    assert!(local.assign(ident("a"), Literal::Bool(false)).is_ok());
    assert!(matches!(local.get(ident("a")), Ok(Literal::Bool(false))));
    assert!(local.assign(ident("c"), Literal::Nil).is_err());
    let outer = local.into_enclosing().expect("has an enclosing scope");
    assert!(matches!(outer.get(ident("a")), Ok(Literal::Bool(false))));
    assert!(outer.get(ident("b")).is_err());
    assert!(outer.into_enclosing().is_none());
}

#[test]
fn block_statements_scope_their_variables() {
    let inner_var = Stmt::Var(Var {
        name: ident("b"),
        initializer: Some(Box::new(Expr::Literal(LiteralExpr { value: Literal::Number(Number::from_int(5)) }))),
    });
    let print_b = Stmt::Print(Print { expression: Box::new(Expr::Variable(Variable { name: ident("b") })) });
    let assign_a = Stmt::Expression(Expression {
        expression: Box::new(Expr::Assign(lox::expr::Assign {
            name: ident("a"),
            value: Box::new(Expr::Binary(Binary {
                left: Box::new(Expr::Variable(Variable { name: ident("a") })),
                operator: Token::new(TokenType::Plus, "+".to_string(), None, 1),
                right: Box::new(Expr::Variable(Variable { name: ident("b") })),
            })),
        })),
    });
    let block = Stmt::Block(Block { statements: vec![Box::new(inner_var), Box::new(print_b), Box::new(assign_a)] });
    let outer_var = Stmt::Var(Var {
        name: ident("a"),
        initializer: Some(Box::new(Expr::Literal(LiteralExpr { value: Literal::Number(Number::from_int(1)) }))),
    });
    let mut interpreter = Interpreter::new();
    assert!(interpreter.interpret(&vec![outer_var, block]).is_ok());
    assert_eq!(interpreter.output().clone(), vec!["5"]);
    assert_eq!(Utils::print_literal(&read_var(&interpreter, "a").expect("bound")), "6");
    assert!(read_var(&interpreter, "b").is_err());
}

#[test]
fn utilities() {
    assert_eq!(Utils::get_char_range("héllo", 1, 4), "éll");
    assert_eq!(Utils::print_literal(&Literal::Bool(false)), "false");
    assert_eq!(Utils::print_literal(&Literal::Nil), "nil");
    assert_eq!(TokenType::LeftBrace.name(), "LEFT_BRACE");
    assert_eq!(LoxError::syntax_error(12), "[line 12] Error: syntax error");
    assert_eq!(LoxError::unterminated_string(3), "[line 3] Error: Unterminated string.");
}

#[test]
fn number_operations() {
    let a = Number::from_int(3);
    let b = Number::from_int(4);
    assert_eq!(a.add(&b).render(), "7");
    assert_eq!(a.sub(&b).render(), "-1");
    assert_eq!(a.mul(&b).render(), "12");
    assert_eq!(a.div(&b).render(), "0.75");
    assert!(a.num_lt(&b));
    assert!(!b.num_le(&a));
    assert!(Number::from_int(0).is_zero());
    assert_eq!(Number::from_int(i64::MIN).render(), "-inf");
    assert_eq!(Number::from_int(i64::MAX).neg().render(), "-9223372036854775807");
    let digits: Vec<char> = "25".chars().collect();
    let frac: Vec<char> = "5".chars().collect();
    assert_eq!(Number::from_digits(&digits, &frac).render(), "25.5");
}

#[test]
fn assignment_parsing() {
    let expr = parse_expr("a = b = 1").expect("parses");
    assert_eq!(AstPrinter {}.print(&expr), "(= a (= b 1))");
    let err = parse_expr("1 = 2").expect_err("must fail");
    assert!(matches!(err, ParseError::InvalidAssignmentTarget { line: 1, .. }));
    assert_eq!(err.message(), "[line 1] Error at '=': Invalid assignment target.");
}

#[test]
fn chained_assignment_runs() {
    let (interpreter, result) = run("var a; var b; a = b = 3; print a + b;");
    assert!(result.is_ok());
    assert_eq!(interpreter.output().clone(), vec!["6"]);
}

#[test]
fn results_stay_in_lowest_terms() {
    let mut program = String::from("var x = 0;");
    for _ in 0..30 {
        program.push_str(" x = x + 0.5;");
    }
    program.push_str(" print x; print 0.1 * 3; print 2.50 / 0.5;");
    let (interpreter, result) = run(&program);
    assert!(result.is_ok());
    assert_eq!(interpreter.output().clone(), vec!["15", "0.3", "5"]);
}

#[test]
fn arithmetic_never_fails_on_numbers() {
    assert_eq!(evaluate_text("9223372036854775807 + 9223372036854775807"), "inf");
    assert_eq!(evaluate_text("-9223372036854775807 - 9223372036854775807"), "-inf");
    assert_eq!(evaluate_text("9000000000000000000 * 10"), "inf");
    assert_eq!(evaluate_text("-(-9223372036854775807 - 1)"), "inf");
    assert_eq!(evaluate_text("-9223372036854775807"), "-9223372036854775807");
    assert_eq!(evaluate_text("0.000000001 * 0.000000001 * 0.001"), "0");
    assert_eq!(evaluate_text("1 / 3 * 3"), "1");
}

#[test]
fn rounded_results_stay_close() {
    let exact = (1.0 / 999999999989.0 + 1.0 / 999999999959.0) * 1e12;
    let text = evaluate_text("(1 / 999999999989 + 1 / 999999999959) * 1000000000000");
    let got: f64 = text.parse().expect("a decimal");
    assert!(((got - exact) / exact).abs() < 1e-6, "{}", text);
    let exact = 123456789.0 / 987654321.0 * (1.0 / 7777777.0);
    let text = evaluate_text("123456789 / 987654321 * (1 / 7777777)");
    let got: f64 = text.parse().expect("a decimal");
    assert!(((got - exact) / exact).abs() < 1e-6, "{}", text);
}

#[test]
fn redefinition_and_assignment_overwrite() {
    let (interpreter, result) = run("var a = 1; var a = 2; a = 3; a = a + 1; print a;");
    assert!(result.is_ok());
    assert_eq!(interpreter.output().clone(), vec!["4"]);
}
