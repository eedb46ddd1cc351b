use jlox::lox::{run, LoxError};
use jlox::parser::parse;
use jlox::scanner::{scan_tokens, LexError};
use jlox::syntax::{AstPrinter, Expr, LiteralType};
use jlox::token::{Token, TokenType};

fn render_of(source: &str) -> String {
    let (tokens, errors) = scan_tokens(source);
    assert!(errors.is_empty(), "unexpected lexical diagnostics");
    let expression = parse(tokens).expect("expected the source to parse");
    let printer = AstPrinter;
    printer.render(&expression)
}

#[test]
fn test_parser() {
    let (tokens, errors) = scan_tokens("-123 * 45.67");
    let had_error = !errors.is_empty();
    assert_eq!(had_error, false, "Failed to scan the test code.");
    let expression = parse(tokens).expect("Failed to parse the test code.");
    let printer = AstPrinter;
    let rendered: String = expression.accept(&printer);
    assert_eq!(rendered, "(* (- 123) 45.67)");
}

#[test]
fn test_printer() {
    let expression = Expr::Binary {
        left: Box::new(Expr::Unary {
            operator: Token::new(TokenType::Minus, "-", 1),
            right: Box::new(Expr::Literal { value: LiteralType::Number("123".to_string()) }),
        }),
        operator: Token::new(TokenType::Star, "*", 1),
        right: Box::new(Expr::Grouping {
            expression: Box::new(Expr::Literal {
                value: LiteralType::Number("45.67".to_string()),
            }),
        }),
    };
    let printer = AstPrinter;
    let rendered: String = expression.accept(&printer);
    assert_eq!(rendered, "(* (- 123) (group 45.67))");
}

#[test]
fn whitespace_and_comments_scan_to_end_of_input_alone() {
    for source in ["", "   \t\r   ", "\n\n\n", "// just a comment", "  // a\n\t// b\n"] {
        let (tokens, errors) = scan_tokens(source);
        assert!(errors.is_empty(), "no diagnostics expected for {:?}", source);
        assert_eq!(tokens.len(), 1, "exactly the end-of-input token for {:?}", source);
        assert!(matches!(tokens[0].token_type, TokenType::Eof));
        assert_eq!(tokens[0].lexeme, "");
    }
}

#[test]
fn token_lines_are_monotonic_and_correct() {
    let (tokens, errors) = scan_tokens("a\nb // c\n\nd");
    assert!(errors.is_empty());
    let lines: Vec<usize> = tokens.iter().map(|t| t.line).collect();
    assert_eq!(lines, vec![1, 2, 4, 4]);
    for pair in lines.windows(2) {
        assert!(pair[0] <= pair[1]);
    }
}

#[test]
fn scan_of_unary_product_yields_expected_tokens() {
    let (tokens, errors) = scan_tokens("-123 * 45.67");
    assert!(errors.is_empty());
    assert_eq!(tokens.len(), 5);
    assert!(matches!(tokens[0].token_type, TokenType::Minus));
    assert!(matches!(tokens[1].token_type, TokenType::NumberLiteral(ref n) if n == "123"));
    assert!(matches!(tokens[2].token_type, TokenType::Star));
    assert!(matches!(tokens[3].token_type, TokenType::NumberLiteral(ref n) if n == "45.67"));
    assert!(matches!(tokens[4].token_type, TokenType::Eof));
    assert_eq!(tokens[0].lexeme, "-");
    assert_eq!(tokens[1].lexeme, "123");
    assert_eq!(tokens[3].lexeme, "45.67");
}

#[test]
fn parse_of_unary_product_has_expected_shape() {
    let (tokens, errors) = scan_tokens("-123 * 45.67");
    assert!(errors.is_empty());
    let expression = parse(tokens).expect("expected the source to parse");
    match expression {
        Expr::Binary { left, operator, right } => {
            assert!(matches!(operator.token_type, TokenType::Star));
            match *left {
                Expr::Unary { operator, right } => {
                    assert!(matches!(operator.token_type, TokenType::Minus));
                    assert!(matches!(
                        *right,
                        Expr::Literal { value: LiteralType::Number(ref n) } if n == "123"
                    ));
                },
                other => panic!("expected a unary left operand, got {:?}", other),
            }
            assert!(matches!(
                *right,
                Expr::Literal { value: LiteralType::Number(ref n) } if n == "45.67"
            ));
        },
        other => panic!("expected a binary root, got {:?}", other),
    }
}

#[test]
fn grouping_renders_with_group_marker() {
    assert_eq!(render_of("(1 + 2) * 3"), "(* (group (+ 1 2)) 3)");
}

#[test]
fn unterminated_string_yields_one_diagnostic_and_no_token() {
    let (tokens, errors) = scan_tokens("\"abc");
    assert_eq!(errors, vec![LexError::UnterminatedString(1)]);
    assert_eq!(tokens.len(), 1);
    assert!(matches!(tokens[0].token_type, TokenType::Eof));
}

#[test]
fn missing_right_operand_fails_at_end_of_input() {
    let (tokens, errors) = scan_tokens("1 +");
    assert!(errors.is_empty());
    let err = parse(tokens).expect_err("expected the parse to fail");
    assert_eq!(err.message, "Expected expression.");
    assert!(matches!(err.token.token_type, TokenType::Eof));
}

#[test]
fn missing_closing_parenthesis_is_diagnosed() {
    let (tokens, errors) = scan_tokens("(1 + 2");
    assert!(errors.is_empty());
    let err = parse(tokens).expect_err("expected the parse to fail");
    assert_eq!(err.message, "Expected ')' after expression.");
    assert!(matches!(err.token.token_type, TokenType::Eof));
}

#[test]
fn keywords_and_identifiers_are_classified() {
    let (tokens, errors) = scan_tokens("and class while foo while2");
    assert!(errors.is_empty());
    assert!(matches!(tokens[0].token_type, TokenType::And));
    assert!(matches!(tokens[1].token_type, TokenType::Class));
    assert!(matches!(tokens[2].token_type, TokenType::While));
    assert!(matches!(tokens[3].token_type, TokenType::Identifier(ref s) if s == "foo"));
    assert!(matches!(tokens[4].token_type, TokenType::Identifier(ref s) if s == "while2"));
    assert!(matches!(tokens[5].token_type, TokenType::Eof));
}

#[test]
fn one_and_two_character_operators_use_maximal_munch() {
    let (tokens, errors) = scan_tokens("!= == <= >= < > ! = / * ;{},.");
    assert!(errors.is_empty());
    let expected = [
        "BangEqual",
        "EqualEqual",
        "LessEqual",
        "GreaterEqual",
        "Less",
        "Greater",
        "Bang",
        "Equal",
        "Slash",
        "Star",
        "Semicolon",
        "LeftBrace",
        "RightBrace",
        "Comma",
        "Dot",
        "Eof",
    ];
    assert_eq!(tokens.len(), expected.len());
    for (token, name) in tokens.iter().zip(expected.iter()) {
        assert_eq!(format!("{:?}", token.token_type), *name);
    }
}

#[test]
fn comment_runs_to_end_of_line_only() {
    let (tokens, errors) = scan_tokens("1 // ignored ( * \"\n2");
    assert!(errors.is_empty());
    assert_eq!(tokens.len(), 3);
    assert!(matches!(tokens[0].token_type, TokenType::NumberLiteral(ref n) if n == "1"));
    assert!(matches!(tokens[1].token_type, TokenType::NumberLiteral(ref n) if n == "2"));
    assert_eq!(tokens[1].line, 2);
}

#[test]
fn string_literal_payload_excludes_quotes_and_tracks_lines() {
    let (tokens, errors) = scan_tokens("\"hi\nthere\"");
    assert!(errors.is_empty());
    assert_eq!(tokens.len(), 2);
    assert!(matches!(tokens[0].token_type, TokenType::StringLiteral(ref s) if s == "hi\nthere"));
    assert_eq!(tokens[0].lexeme, "\"hi\nthere\"");
    assert_eq!(tokens[0].line, 2);
}

#[test]
fn numbers_are_decoded_to_canonical_text() {
    let cases = [
        ("007.500", "7.5"),
        ("0.000", "0"),
        ("000", "0"),
        ("10.010", "10.01"),
        ("45.67", "45.67"),
        ("123", "123"),
    ];
    for (source, expected) in cases {
        let (tokens, errors) = scan_tokens(source);
        assert!(errors.is_empty());
        assert_eq!(tokens.len(), 2, "one number expected for {:?}", source);
        assert!(
            matches!(tokens[0].token_type, TokenType::NumberLiteral(ref n) if n == expected),
            "expected {:?} for {:?}, got {:?}",
            expected,
            source,
            tokens[0].token_type
        );
    }
}

#[test]
fn trailing_dot_is_not_part_of_a_number() {
    let (tokens, errors) = scan_tokens("123.");
    assert!(errors.is_empty());
    assert_eq!(tokens.len(), 3);
    assert!(matches!(tokens[0].token_type, TokenType::NumberLiteral(ref n) if n == "123"));
    assert!(matches!(tokens[1].token_type, TokenType::Dot));
}

#[test]
fn unexpected_character_is_diagnosed_and_scanning_continues() {
    let (tokens, errors) = scan_tokens("@\n#1");
    assert_eq!(
        errors,
        vec![LexError::UnexpectedCharacter(1), LexError::UnexpectedCharacter(2)]
    );
    assert_eq!(tokens.len(), 2);
    assert!(matches!(tokens[0].token_type, TokenType::NumberLiteral(ref n) if n == "1"));
}

#[test]
fn unary_is_right_recursive() {
    assert_eq!(render_of("!!true"), "(! (! true))");
}

#[test]
fn binary_levels_are_left_associative() {
    assert_eq!(render_of("1 - 2 - 3"), "(- (- 1 2) 3)");
    assert_eq!(render_of("1 == 2 != 3"), "(!= (== 1 2) 3)");
    assert_eq!(render_of("8 / 4 / 2"), "(/ (/ 8 4) 2)");
}

#[test]
fn precedence_binds_tighter_levels_first() {
    assert_eq!(render_of("1 + 2 * 3"), "(+ 1 (* 2 3))");
    assert_eq!(render_of("1 < 2 + 3"), "(< 1 (+ 2 3))");
    assert_eq!(render_of("1 != 2 < 3"), "(!= 1 (< 2 3))");
    assert_eq!(render_of("-1 * 2"), "(* (- 1) 2)");
}

#[test]
fn literals_render_in_canonical_text_form() {
    assert_eq!(render_of("nil"), "nil");
    assert_eq!(render_of("true"), "true");
    assert_eq!(render_of("false"), "false");
    assert_eq!(render_of("\"hi\" + \"yo\""), "(+ hi yo)");
}

#[test]
fn rendering_ignores_source_spacing() {
    let dense = render_of("(1+2)*3");
    let spaced = render_of("( 1 + 2 ) * 3");
    let lined = render_of("(1 +\n 2)\n * 3 // tail");
    assert_eq!(dense, "(* (group (+ 1 2)) 3)");
    assert_eq!(dense, spaced);
    assert_eq!(dense, lined);
}

#[test]
fn run_renders_a_clean_source() {
    let out = run("(1 + 2) * 3").expect("expected the run to succeed");
    assert_eq!(out, "(* (group (+ 1 2)) 3)");
}

#[test]
fn run_reports_scanning_failure_without_parsing() {
    assert!(matches!(run("\"abc"), Err(LoxError::Scanning)));
    assert!(matches!(run("@"), Err(LoxError::Scanning)));
}

#[test]
fn run_reports_parsing_failure() {
    assert!(matches!(run("1 +"), Err(LoxError::Parsing)));
    assert!(matches!(run("(1 + 2"), Err(LoxError::Parsing)));
}

#[test]
fn lox_error_wraps_shell_io_failures() {
    let io_error = std::io::Error::new(std::io::ErrorKind::NotFound, "gone");
    assert!(matches!(LoxError::from(io_error), LoxError::IoError(_)));
}

#[test]
fn token_new_keeps_its_parts() {
    let token = Token::new(TokenType::Minus, "-", 7);
    assert!(matches!(token.token_type, TokenType::Minus));
    assert_eq!(token.lexeme, "-");
    assert_eq!(token.line, 7);
}
