use calculator::{
    bind, check_reset_num_buffer, evaluate, is_number_literal, precedence, to_postfix, tokenize,
    Error, Expr, Op, Token,
};

fn numeric(ts: Vec<Token<String>>) -> Vec<Token<f64>> {
    ts.into_iter()
        .map(|t| match t {
            Token::Value(text) => Token::Value(text.parse().unwrap()),
            Token::Variable(name) => Token::Variable(name),
            Token::Operator(op) => Token::Operator(op),
            Token::OpenParen => Token::OpenParen,
            Token::CloseParen => Token::CloseParen,
        })
        .collect()
}

fn value(e: &Expr<f64>) -> f64 {
    match e {
        Expr::Leaf(x) => *x,
        Expr::Node(op, l, r) => {
            let (l, r) = (value(l), value(r));
            match op {
                Op::Add => l + r,
                Op::Sub => l - r,
                Op::Mul => l * r,
                Op::Div => l / r,
                Op::Pow => l.powf(r),
            }
        }
    }
}

fn run(text: &str) -> Result<f64, Error> {
    let tokens = numeric(tokenize(text).unwrap());
    evaluate(to_postfix(tokens)).map(|e| value(&e))
}

fn v(x: f64) -> Token<f64> {
    Token::Value(x)
}

fn lit(s: &str) -> Token<String> {
    Token::Value(s.to_string())
}

#[test]
fn whitespace_placement_gives_same_tokens() {
    let a = tokenize("1+2").unwrap();
    assert_eq!(a, tokenize("1 + 2").unwrap());
    assert_eq!(a, tokenize(" 1\t+\n2 ").unwrap());
    assert_eq!(a, vec![lit("1"), Token::Operator(Op::Add), lit("2")]);
}

#[test]
fn multiplication_binds_before_addition() {
    let postfix = to_postfix(numeric(tokenize("1+2*3").unwrap()));
    assert_eq!(
        postfix,
        vec![v(1.0), v(2.0), v(3.0), Token::Operator(Op::Mul), Token::Operator(Op::Add)]
    );
    assert_eq!(run("1+2*3"), Ok(7.0));
}

#[test]
fn parentheses_override_precedence() {
    assert_eq!(run("(1+2)*3"), Ok(9.0));
}

#[test]
fn power_groups_to_the_left() {
    let r = run("2^2^3").unwrap();
    assert_eq!(r, 64.0);
    assert_ne!(r, 256.0);
    let tree = evaluate(to_postfix(numeric(tokenize("2^2^3").unwrap()))).unwrap();
    assert_eq!(
        tree,
        Expr::Node(
            Op::Pow,
            Box::new(Expr::Node(Op::Pow, Box::new(Expr::Leaf(2.0)), Box::new(Expr::Leaf(2.0)))),
            Box::new(Expr::Leaf(3.0))
        )
    );
}

#[test]
fn division_by_zero_is_infinite() {
    let r = run("1/0").unwrap();
    assert!(r.is_infinite());
    assert!(r > 0.0);
}

#[test]
fn single_token_postfix_is_fixed() {
    for t in [v(5.0), Token::Variable("x".to_string()), Token::Operator(Op::Mul), Token::OpenParen]
    {
        let once = to_postfix(vec![t.clone()]);
        assert_eq!(once, vec![t]);
        assert_eq!(to_postfix(once.clone()), once);
    }
    let closed = to_postfix(vec![Token::<f64>::CloseParen]);
    assert_eq!(closed, vec![]);
    assert_eq!(to_postfix(closed.clone()), closed);
}

#[test]
fn bound_function_square_plus_one() {
    let f = to_postfix(numeric(tokenize("x*x+1").unwrap()));
    let e = evaluate(bind(f, 3.0)).unwrap();
    assert_eq!(value(&e), 10.0);
}

#[test]
fn two_values_without_operator_are_malformed() {
    assert_eq!(evaluate(vec![v(3.0), v(4.0)]), Err(Error::MalformedExpression));
    // whitespace is no separator: the digits join one literal
    assert_eq!(tokenize("3 4").unwrap(), vec![lit("34")]);
}

#[test]
fn empty_input_is_malformed() {
    assert_eq!(tokenize("").unwrap(), vec![]);
    assert_eq!(tokenize("  \t ").unwrap(), vec![]);
    assert_eq!(evaluate(Vec::<Token<f64>>::new()), Err(Error::MalformedExpression));
}

#[test]
fn unclosed_open_paren_reaches_evaluation() {
    let postfix = to_postfix(numeric(tokenize("(1+2").unwrap()));
    assert_eq!(
        postfix,
        vec![v(1.0), v(2.0), Token::Operator(Op::Add), Token::OpenParen]
    );
    assert_eq!(evaluate(postfix), Err(Error::InvalidToken("(".to_string())));
}

#[test]
fn unmatched_close_paren_is_absorbed() {
    let with = to_postfix(numeric(tokenize("1+2)").unwrap()));
    let without = to_postfix(numeric(tokenize("1+2").unwrap()));
    assert_eq!(with, without);
    assert_eq!(run("1+2)"), Ok(3.0));
}

#[test]
fn precedence_table() {
    assert_eq!(precedence(&Op::Add), 1);
    assert_eq!(precedence(&Op::Sub), 1);
    assert_eq!(precedence(&Op::Mul), 2);
    assert_eq!(precedence(&Op::Div), 2);
    assert_eq!(precedence(&Op::Pow), 3);
}

#[test]
fn operand_order_is_left_then_right() {
    assert_eq!(run("5-3"), Ok(2.0));
    assert_eq!(run("8/2"), Ok(4.0));
    assert_eq!(run("2^3"), Ok(8.0));
    assert_eq!(run("10-4-3"), Ok(3.0));
}

#[test]
fn invalid_literal_is_reported() {
    assert_eq!(tokenize("1.2.3+1"), Err(Error::InvalidToken("1.2.3".to_string())));
    assert_eq!(tokenize("x1"), Err(Error::InvalidToken("x1".to_string())));
    assert_eq!(tokenize("2*a_b"), Err(Error::InvalidToken("a_b".to_string())));
}

#[test]
fn names_and_number_words() {
    assert_eq!(tokenize("abc").unwrap(), vec![Token::Variable("abc".to_string())]);
    assert_eq!(tokenize("é").unwrap(), vec![Token::Variable("é".to_string())]);
    assert_eq!(tokenize("inf").unwrap(), vec![lit("inf")]);
    assert_eq!(tokenize("NaN").unwrap(), vec![lit("NaN")]);
    assert_eq!(tokenize("x y").unwrap(), vec![Token::Variable("xy".to_string())]);
}

#[test]
fn every_symbol_is_its_own_token() {
    assert_eq!(
        tokenize("(a)+-*/^").unwrap(),
        vec![
            Token::OpenParen,
            Token::Variable("a".to_string()),
            Token::CloseParen,
            Token::Operator(Op::Add),
            Token::Operator(Op::Sub),
            Token::Operator(Op::Mul),
            Token::Operator(Op::Div),
            Token::Operator(Op::Pow),
        ]
    );
}

#[test]
fn missing_operand_underflows() {
    assert_eq!(evaluate(vec![v(1.0), Token::Operator(Op::Add)]), Err(Error::StackUnderflow));
    assert_eq!(run("1+"), Err(Error::StackUnderflow));
    // no unary minus: a leading minus is a binary operator
    assert_eq!(run("-1"), Err(Error::StackUnderflow));
}

#[test]
fn unbound_variable_is_invalid_in_evaluation() {
    let postfix = to_postfix(numeric(tokenize("x+1").unwrap()));
    assert_eq!(evaluate(postfix), Err(Error::InvalidToken("x".to_string())));
    assert_eq!(evaluate(vec![Token::<f64>::CloseParen]), Err(Error::InvalidToken(")".to_string())));
}

#[test]
fn bind_replaces_every_variable() {
    let postfix = vec![
        Token::Variable("x".to_string()),
        Token::Variable("y".to_string()),
        Token::Operator(Op::Add),
    ];
    assert_eq!(bind(postfix, 2.0), vec![v(2.0), v(2.0), Token::Operator(Op::Add)]);
}

#[test]
fn number_literals_match_the_standard_parser() {
    let cases = [
        "0", "12", "1.", ".5", "1.5", "1e5", "1E5", "1e+5", "1e-5", "+3", "-3", "inf", "INF",
        "infinity", "InFiNiTy", "nan", "NaN", "-nan", ".", "", "e5", "1e", "1.2.3", "..5",
        "1e5.0", "x", "in", "infinit", "1_0", "++1", "1ee5", "٣",
    ];
    for s in cases {
        let chars: Vec<char> = s.chars().collect();
        assert_eq!(is_number_literal(&chars), s.parse::<f64>().is_ok(), "{}", s);
    }
}

#[test]
fn buffer_flush() {
    let mut buf: Vec<char> = "12".chars().collect();
    let mut acc: Vec<Token<String>> = vec![Token::OpenParen];
    assert_eq!(check_reset_num_buffer(&mut buf, &mut acc), Ok(()));
    assert!(buf.is_empty());
    assert_eq!(acc, vec![Token::OpenParen, lit("12")]);

    assert_eq!(check_reset_num_buffer(&mut buf, &mut acc), Ok(()));
    assert_eq!(acc.len(), 2);

    let mut bad: Vec<char> = "1a".chars().collect();
    assert_eq!(
        check_reset_num_buffer(&mut bad, &mut acc),
        Err(Error::InvalidToken("1a".to_string()))
    );
}
