use parsemath::ast::Node;
use parsemath::parser::{parse_expression, parse_line, strip_whitespace, ParseError, Parser};
use parsemath::token::{OperPrec, Token};
use parsemath::tokenizer::Tokenizer;

fn num(s: &str) -> Box<Node> {
    Box::new(Node::Num(s.to_string()))
}

/// The floating-point value of a tree, as the evaluator computes it.
fn value(n: &Node) -> f64 {
    match n {
        Node::Num(s) => s.parse::<f64>().unwrap(),
        Node::Add(l, r) => value(l) + value(r),
        Node::Subtract(l, r) => value(l) - value(r),
        Node::Multiply(l, r) => value(l) * value(r),
        Node::Divide(l, r) => value(l) / value(r),
        Node::Caret(l, r) => value(l).powf(value(r)),
        Node::Negative(x) => -value(x),
    }
}

fn eval_line(line: &str) -> f64 {
    value(&parse_line(line).unwrap())
}

#[test]
fn literal_alone_parses_to_itself() {
    for lit in ["0", "42", "3.25", "0.5", "7.", "1234567890123456789012345"] {
        assert_eq!(parse_line(lit), Ok(Node::Num(lit.to_string())));
    }
    assert_eq!(eval_line("3.25"), 3.25);
    assert_eq!(eval_line("42"), 42.0);
}

#[test]
fn precedence_of_products_over_sums() {
    assert_eq!(eval_line("2+3"), 5.0);
    assert_eq!(eval_line("2*3+4"), 10.0);
    assert_eq!(eval_line("2+3*4"), 14.0);
    assert_eq!(
        parse_line("2+3*4"),
        Ok(Node::Add(num("2"), Box::new(Node::Multiply(num("3"), num("4")))))
    );
    assert_eq!(
        parse_line("2*3+4"),
        Ok(Node::Add(Box::new(Node::Multiply(num("2"), num("3"))), num("4")))
    );
}

#[test]
fn parentheses_override_precedence() {
    assert_eq!(eval_line("(2+3)*4"), 20.0);
    assert_eq!(
        parse_line("(2+3)*4"),
        Ok(Node::Multiply(Box::new(Node::Add(num("2"), num("3"))), num("4")))
    );
}

#[test]
fn power_folds_left() {
    assert_eq!(eval_line("2^3"), 8.0);
    assert_eq!(eval_line("2^3^2"), 64.0);
    assert_eq!(
        parse_line("2^3^2"),
        Ok(Node::Caret(Box::new(Node::Caret(num("2"), num("3"))), num("2")))
    );
}

#[test]
fn unary_minus_binds_tighter_than_power() {
    assert_eq!(eval_line("-2^2"), 4.0);
    assert_eq!(
        parse_line("-2^2"),
        Ok(Node::Caret(Box::new(Node::Negative(num("2"))), num("2")))
    );
    assert_eq!(eval_line("3--2"), 5.0);
}

#[test]
fn adjacent_groups_multiply() {
    assert_eq!(eval_line("(2)(3)"), 6.0);
    assert_eq!(parse_line("(2)(3)"), Ok(Node::Multiply(num("2"), num("3"))));
    assert_eq!(eval_line("(2)(3)+1"), 7.0);
}

#[test]
fn division_by_zero_is_infinite() {
    assert_eq!(parse_line("1/0"), Ok(Node::Divide(num("1"), num("0"))));
    let v = eval_line("1/0");
    assert!(v.is_infinite() && v > 0.0);
}

#[test]
fn empty_line_is_invalid_operator() {
    assert_eq!(parse_line(""), Err(ParseError::InvalidOperator(String::new())));
    assert_eq!(parse_line(" \t\n"), Err(ParseError::InvalidOperator(String::new())));
}

#[test]
fn lone_operator_is_invalid_operator() {
    assert_eq!(
        parse_line("+"),
        Err(ParseError::InvalidOperator("Expected an operand, got Add".to_string()))
    );
    assert!(matches!(parse_line("*"), Err(ParseError::InvalidOperator(_))));
    assert!(matches!(parse_line("2*/3"), Err(ParseError::InvalidOperator(_))));
    assert!(matches!(parse_line("^2"), Err(ParseError::InvalidOperator(_))));
}

#[test]
fn missing_operand_at_paren_or_end_cannot_start() {
    assert_eq!(
        parse_line("-"),
        Err(ParseError::UnableToParse("Unable to parse".to_string()))
    );
    assert_eq!(
        parse_line(")"),
        Err(ParseError::UnableToParse("Unable to parse".to_string()))
    );
    assert_eq!(
        parse_line("()"),
        Err(ParseError::UnableToParse("Unable to parse".to_string()))
    );
}

#[test]
fn trees_and_tokens_clone_and_compare() {
    let tree = parse_line("(1+2)*3^4").unwrap();
    let copy = tree.clone();
    assert_eq!(copy, tree);
    let tok = Token::Num("2.5".to_string());
    assert_eq!(tok.clone(), tok);
    assert!(Token::Add < Token::Subtract);
    assert!(Token::Num("1".to_string()) < Token::Num("2".to_string()));
    assert!(Token::RightParen < Token::EOF);
}

#[test]
fn missing_right_operand_fails() {
    assert_eq!(
        parse_line("2+"),
        Err(ParseError::UnableToParse("Unable to parse".to_string()))
    );
}

#[test]
fn missing_closing_paren_is_invalid_operator() {
    assert_eq!(
        parse_line("(2+3"),
        Err(ParseError::InvalidOperator("Expected RightParen, got EOF".to_string()))
    );
}

#[test]
fn unknown_character_ends_the_tokens() {
    assert_eq!(parse_line("2$3"), Err(ParseError::InvalidOperator(String::new())));
    assert_eq!(parse_line("x"), Err(ParseError::InvalidOperator(String::new())));
}

#[test]
fn literal_with_two_points_is_refused() {
    assert_eq!(parse_line("1.2.3"), Err(ParseError::InvalidOperator(String::new())));
    assert_eq!(parse_line("1+1.2.3"), Err(ParseError::InvalidOperator(String::new())));
}

#[test]
fn whitespace_is_taken_out_before_parsing() {
    assert_eq!(strip_whitespace("\t1 +\u{3000}2\n"), "1+2".to_string());
    assert_eq!(parse_line(" 2 + 3 "), Ok(Node::Add(num("2"), num("3"))));
    assert_eq!(parse_line("2 3"), Ok(Node::Num("23".to_string())));
}

#[test]
fn tokenizer_skips_whitespace_itself() {
    assert_eq!(parse_expression(" 2 + 3 "), Ok(Node::Add(num("2"), num("3"))));
    assert_eq!(parse_expression("2 3"), Ok(Node::Num("2".to_string())));
}

#[test]
fn parsing_stops_at_a_token_that_cannot_continue() {
    assert_eq!(parse_line("2(3)"), Ok(Node::Num("2".to_string())));
    assert_eq!(parse_line("(2)3"), Ok(Node::Num("2".to_string())));
}

#[test]
fn unexpected_token_inside_parens() {
    assert_eq!(
        parse_expression("(2 3.5)"),
        Err(ParseError::InvalidOperator("Expected RightParen, got Num(3.5)".to_string()))
    );
}

#[test]
fn tokenizer_yields_tokens_then_eof_then_nothing() {
    let mut t = Tokenizer::new("12.5+(x");
    assert_eq!(t.next(), Some(Token::Num("12.5".to_string())));
    assert_eq!(t.next(), Some(Token::Add));
    assert_eq!(t.next(), Some(Token::LeftParen));
    assert_eq!(t.next(), None);
    assert_eq!(t.next(), None);
    let mut u = Tokenizer::new("-*/^) ");
    for tok in [Token::Subtract, Token::Multiply, Token::Divide, Token::Caret, Token::RightParen, Token::EOF] {
        assert_eq!(u.next(), Some(tok));
    }
    assert_eq!(u.next(), None);
    let mut blank = Tokenizer::new("  ");
    assert_eq!(blank.next(), None);
}

#[test]
fn precedence_levels_are_ordered() {
    assert!(OperPrec::DefaultZero < OperPrec::AddSub);
    assert!(OperPrec::AddSub < OperPrec::MulDiv);
    assert!(OperPrec::MulDiv < OperPrec::Power);
    assert!(OperPrec::Power < OperPrec::Negative);
    assert!(!(OperPrec::Power < OperPrec::Power));
    assert_eq!(Token::Add.get_oper_prec(), OperPrec::AddSub);
    assert_eq!(Token::Subtract.get_oper_prec(), OperPrec::AddSub);
    assert_eq!(Token::Multiply.get_oper_prec(), OperPrec::MulDiv);
    assert_eq!(Token::Divide.get_oper_prec(), OperPrec::MulDiv);
    assert_eq!(Token::Caret.get_oper_prec(), OperPrec::Power);
    assert_eq!(Token::EOF.get_oper_prec(), OperPrec::DefaultZero);
    assert_eq!(Token::Num("1".to_string()).get_oper_prec(), OperPrec::DefaultZero);
}

#[test]
fn tokens_and_errors_describe_themselves() {
    assert_eq!(Token::Num("2.5".to_string()).describe(), "Num(2.5)".to_string());
    assert_eq!(Token::LeftParen.describe(), "LeftParen".to_string());
    assert_eq!(
        ParseError::InvalidOperator("x".to_string()).message(),
        "Invalid operator: x".to_string()
    );
    assert_eq!(
        ParseError::UnableToParse("y".to_string()).message(),
        "Error in evaluating: y".to_string()
    );
}

#[test]
fn parser_made_then_run() {
    let mut p = Parser::new("1-2-3").unwrap();
    let tree = p.parse().unwrap();
    assert_eq!(
        tree,
        Node::Subtract(Box::new(Node::Subtract(num("1"), num("2"))), num("3"))
    );
    assert_eq!(value(&tree), -4.0);
    assert!(Parser::new("").is_err());
}

#[test]
fn mixed_expression_value() {
    assert_eq!(eval_line("2*3+(4-5)+2^3/4"), 7.0);
    assert_eq!(eval_line("8/2/2"), 2.0);
}

#[test]
fn every_short_expression_ends_in_a_value_or_an_error() {
    let alphabet = ['1', '.', '+', '-', '*', '/', '^', '(', ')', ' '];
    let mut count = 0usize;
    let mut buf = String::new();
    for a in alphabet {
        for b in alphabet {
            for c in alphabet {
                for d in alphabet {
                    buf.clear();
                    buf.push(a);
                    buf.push(b);
                    buf.push(c);
                    buf.push(d);
                    match parse_line(&buf) {
                        Ok(tree) => {
                            let _ = value(&tree);
                        }
                        Err(ParseError::InvalidOperator(_)) | Err(ParseError::UnableToParse(_)) => {}
                    }
                    count += 1;
                }
            }
        }
    }
    assert_eq!(count, 10000);
}

#[test]
fn every_operator_pair_groups_by_precedence() {
    let ops = ['+', '-', '*', '/', '^'];
    let level = |c: char| match c {
        '+' | '-' => 1,
        '*' | '/' => 2,
        _ => 3,
    };
    let apply = |c: char, x: f64, y: f64| match c {
        '+' => x + y,
        '-' => x - y,
        '*' => x * y,
        '/' => x / y,
        _ => x.powf(y),
    };
    for o1 in ops {
        for o2 in ops {
            let line = format!("6{}2{}3", o1, o2);
            let expected = if level(o1) < level(o2) {
                apply(o1, 6.0, apply(o2, 2.0, 3.0))
            } else {
                apply(o2, apply(o1, 6.0, 2.0), 3.0)
            };
            assert_eq!(eval_line(&line), expected, "{}", line);
        }
    }
    assert_eq!(eval_line("8/2^2"), 2.0);
    assert_eq!(eval_line("8-2+1"), 7.0);
}

#[test]
fn long_chain_folds_left() {
    assert_eq!(eval_line("1-2-3-4"), -8.0);
    assert_eq!(eval_line("2*3/4*5"), 7.5);
    assert_eq!(eval_line("2^2^2^2"), 256.0);
    assert_eq!(
        parse_line("1-2+3"),
        Ok(Node::Add(Box::new(Node::Subtract(num("1"), num("2"))), num("3")))
    );
}
