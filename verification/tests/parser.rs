use std::collections::HashMap;

use symbolic_math::arith::Operation;
use symbolic_math::expr::Expr;
use symbolic_math::functions::FnArgs;
use symbolic_math::parser::grammar::ParseError;
use symbolic_math::parser::lexer::tokenize;
use symbolic_math::parser::parser::{
    merge_to_bin_op, op_token_apply_unchecked, op_token_to_expr_unchecked, parse, parse_atom,
    parse_expr, parse_implicit_multiplication, parse_parens, parse_product, parse_sum, try_parse,
};
use symbolic_math::parser::token::{Token, TokenIter};
use symbolic_math::scalar::Scalar;

fn scalar(x: f32) -> Scalar {
    Scalar::from_bits(x.to_bits())
}

fn float(s: Scalar) -> f32 {
    f32::from_bits(s.to_bits())
}

fn kernel(op: Operation) -> Scalar {
    match op {
        Operation::Literal(text) => scalar(text.parse::<f32>().unwrap()),
        Operation::Add(a, b) => scalar(float(a) + float(b)),
        Operation::Sub(a, b) => scalar(float(a) - float(b)),
        Operation::Mul(a, b) => scalar(float(a) * float(b)),
        Operation::Div(a, b) => scalar(float(a) / float(b)),
        Operation::Sin(a) => scalar(float(a).sin()),
        Operation::Pow { base, exponent } => scalar(float(base).powf(float(exponent))),
        Operation::Log { argument, base } => scalar(float(argument).log(float(base))),
    }
}

fn num(x: f32) -> Expr {
    Expr::Num(scalar(x))
}

fn var(name: &str) -> Expr {
    Expr::Var(name.to_string())
}

fn number(x: f32) -> Token {
    Token::Number(scalar(x))
}

fn ident(name: &str) -> Token {
    Token::Ident(name.to_string())
}

fn parse_text(text: &str) -> Expr {
    parse(tokenize(text, &kernel).unwrap(), &kernel)
}

fn try_parse_text(text: &str) -> Result<Expr, ParseError> {
    try_parse(tokenize(text, &kernel).unwrap(), &kernel)
}

fn env(pairs: &[(&str, f32)]) -> FnArgs {
    let mut args = FnArgs::new();
    for (name, value) in pairs {
        args.insert(name.to_string(), scalar(*value));
    }
    args
}

fn eval(e: &Expr, pairs: &[(&str, f32)]) -> Option<f32> {
    e.eval(&env(pairs), &kernel).map(float)
}

/// Walks a tree with ordinary floating-point arithmetic.
fn walk(e: &Expr, env: &HashMap<&str, f32>) -> f32 {
    match e {
        Expr::Num(v) => float(*v),
        Expr::Var(name) => env[name.as_str()],
        Expr::Add(l, r) => walk(l, env) + walk(r, env),
        Expr::Sub(l, r) => walk(l, env) - walk(r, env),
        Expr::Mul(l, r) => walk(l, env) * walk(r, env),
        Expr::Div(l, r) => walk(l, env) / walk(r, env),
        Expr::Sin(x) => walk(x, env).sin(),
    }
}

fn has_var(e: &Expr) -> bool {
    match e {
        Expr::Num(_) => false,
        Expr::Var(_) => true,
        Expr::Add(l, r) | Expr::Sub(l, r) | Expr::Mul(l, r) | Expr::Div(l, r) => {
            has_var(l) || has_var(r)
        }
        Expr::Sin(x) => has_var(x),
    }
}

fn nothing_left_to_fold(e: &Expr) -> bool {
    match e {
        Expr::Num(_) | Expr::Var(_) => true,
        Expr::Add(l, r) | Expr::Sub(l, r) | Expr::Mul(l, r) | Expr::Div(l, r) => {
            has_var(e) && nothing_left_to_fold(l) && nothing_left_to_fold(r)
        }
        Expr::Sin(x) => has_var(e) && nothing_left_to_fold(x),
    }
}

#[test]
fn a_number_is_a_leaf() {
    assert_eq!(parse_text("42"), num(42.0));
}

#[test]
fn a_name_is_a_variable() {
    assert_eq!(parse_text("x"), var("x"));
}

#[test]
fn constants_fold_to_one_number() {
    assert_eq!(parse_text("2*3+4"), num(10.0));
    assert_eq!(parse_text("10"), num(10.0));
    assert_eq!(parse_text("2*3+4"), parse_text("10"));
}

#[test]
fn precedence_of_product_over_sum() {
    assert_eq!(parse_text("2+3*4"), num(14.0));
    assert_eq!(parse_text("2*3+4*5"), num(26.0));
    assert_eq!(parse_text("(2+3)*4"), num(20.0));
}

#[test]
fn precedence_in_a_tree_with_variables() {
    assert_eq!(
        parse_text("a+b*c"),
        Expr::new_add(var("a"), Expr::new_mul(var("b"), var("c")))
    );
    assert_eq!(
        parse_text("a*b+c"),
        Expr::new_add(Expr::new_mul(var("a"), var("b")), var("c"))
    );
}

#[test]
fn sum_and_product_associate_to_the_left() {
    assert_eq!(parse_text("10-4-3"), num(3.0));
    assert_eq!(parse_text("64/4/2"), num(8.0));
    assert_eq!(
        parse_text("a-b-c"),
        Expr::new_sub(Expr::new_sub(var("a"), var("b")), var("c"))
    );
    assert_eq!(
        parse_text("a/b*c"),
        Expr::new_mul(Expr::new_div(var("a"), var("b")), var("c"))
    );
}

#[test]
fn operands_keep_their_order() {
    assert_eq!(parse_text("1-2"), num(-1.0));
    assert_eq!(parse_text("1/4"), num(0.25));
}

#[test]
fn folding_stops_at_a_variable() {
    assert_eq!(parse_text("1+2+x"), Expr::new_add(num(3.0), var("x")));
    assert_eq!(
        parse_text("x+1+2"),
        Expr::new_add(Expr::new_add(var("x"), num(1.0)), num(2.0))
    );
    assert_eq!(parse_text("x+2*3"), Expr::new_add(var("x"), num(6.0)));
    assert_eq!(parse_text("x*(1+2)"), Expr::new_mul(var("x"), num(3.0)));
}

#[test]
fn implicit_multiplication_by_a_name() {
    let tree = parse_text("2x");
    assert_eq!(tree, Expr::new_mul(num(2.0), var("x")));
    assert_eq!(walk(&tree, &HashMap::from([("x", 5.0)])), 10.0);
    assert_eq!(eval(&tree, &[("x", 5.0)]), Some(10.0));
}

#[test]
fn implicit_multiplication_by_parentheses() {
    let tree = parse_text("2(3+4)");
    assert_eq!(tree, num(14.0));
    assert_eq!(walk(&tree, &HashMap::new()), 14.0);
    assert_eq!(eval(&tree, &[]), Some(14.0));
}

#[test]
fn implicit_multiplication_of_a_name_by_parentheses() {
    let tree = parse_text("x(x+1)");
    assert_eq!(
        tree,
        Expr::new_mul(var("x"), Expr::new_add(var("x"), num(1.0)))
    );
    assert_eq!(walk(&tree, &HashMap::from([("x", 3.0)])), 12.0);
    assert_eq!(eval(&tree, &[("x", 3.0)]), Some(12.0));
}

#[test]
fn implicit_multiplication_repeats() {
    assert_eq!(
        parse_text("2xy"),
        Expr::new_mul(num(2.0), var("xy"))
    );
    assert_eq!(
        parse_text("2x y"),
        Expr::new_mul(Expr::new_mul(num(2.0), var("x")), var("y"))
    );
    assert_eq!(parse_text("2(3)(4)"), num(24.0));
    assert_eq!(
        parse_text("(x)(y)(2)"),
        Expr::new_mul(Expr::new_mul(var("x"), var("y")), num(2.0))
    );
}

#[test]
fn implicit_multiplication_binds_tighter_than_product() {
    assert_eq!(
        parse_text("a/b c"),
        Expr::new_div(var("a"), Expr::new_mul(var("b"), var("c")))
    );
    assert_eq!(parse_text("8/2(4)"), num(1.0));
}

#[test]
fn a_number_is_no_implicit_factor() {
    assert_eq!(try_parse_text("x 2"), Err(ParseError::UnexpectedToken));
    assert_eq!(try_parse_text("2 3"), Err(ParseError::UnexpectedToken));
}

#[test]
fn sine_of_a_constant_folds() {
    let tokens = vec![Token::Sin, Token::LParen, number(0.5), Token::RParen];
    assert_eq!(parse(tokens, &kernel), num(0.5f32.sin()));
}

#[test]
fn sine_of_a_variable_stays() {
    let tokens = vec![Token::Sin, Token::LParen, ident("x"), Token::RParen];
    assert_eq!(parse(tokens, &kernel), Expr::new_sin(var("x")));
}

#[test]
fn sine_inside_a_constant_sum_folds() {
    let tokens = vec![
        number(1.0),
        Token::Plus,
        Token::Sin,
        Token::LParen,
        number(2.0),
        Token::Star,
        number(0.25),
        Token::RParen,
    ];
    assert_eq!(parse(tokens, &kernel), num(1.0 + 0.5f32.sin()));
}

#[test]
fn sine_needs_parentheses() {
    let tokens = vec![Token::Sin, number(1.0)];
    assert_eq!(try_parse(tokens, &kernel), Err(ParseError::UnexpectedToken));
    assert_eq!(try_parse(vec![Token::Sin], &kernel), Err(ParseError::UnexpectedEnd));
}

#[test]
fn sine_is_no_implicit_factor() {
    let tokens = vec![number(2.0), Token::Sin, Token::LParen, ident("x"), Token::RParen];
    assert_eq!(try_parse(tokens, &kernel), Err(ParseError::UnexpectedToken));
}

#[test]
fn the_word_sin_is_a_variable() {
    assert_eq!(parse_text("sin(x)"), Expr::new_mul(var("sin"), var("x")));
}

#[test]
fn one_plus_two_is_three() {
    let tokens = tokenize("1+2", &kernel).unwrap();
    let folded = parse(tokens, &kernel);
    assert_eq!(walk(&folded, &HashMap::new()), 3.0);
    let raw = op_token_to_expr_unchecked(&Token::Plus, num(1.0), num(2.0));
    assert_eq!(raw, Expr::new_add(num(1.0), num(2.0)));
    assert_eq!(walk(&raw, &HashMap::new()), 3.0);
    assert_eq!(float(raw.eval_const(&kernel)), 3.0);
    assert_eq!(eval(&raw, &[]), Some(3.0));
    assert_eq!(eval(&folded, &[]), Some(3.0));
}

#[test]
fn constant_text_has_no_variable_and_the_value_of_a_calculator() {
    let cases: [(&str, f32); 8] = [
        ("1+2*3-4/8", 1.0 + 2.0 * 3.0 - 4.0 / 8.0),
        ("(1+2)*(3-4)/8", (1.0 + 2.0) * (3.0 - 4.0) / 8.0),
        ("2(3)(4+1)", 2.0 * 3.0 * (4.0 + 1.0)),
        ("1.5*1.5", 2.25),
        ("0.1+0.2", 0.1f32 + 0.2f32),
        ("1/3", 1.0f32 / 3.0f32),
        ("((((7))))", 7.0),
        ("1/0", f32::INFINITY),
    ];
    for (text, expected) in cases {
        let tree = parse_text(text);
        assert!(!has_var(&tree), "{text}");
        assert_eq!(tree, num(expected), "{text}");
        assert_eq!(float(tree.eval_const(&kernel)), expected, "{text}");
    }
}

#[test]
fn nothing_is_left_to_fold() {
    for text in [
        "1+2+x",
        "x+1+2",
        "2*3*x+4*5",
        "(1+2)(x)(3+4)",
        "x(2(3))",
        "1+2",
        "a/(b-(1+1))",
        "2x+3(4)",
    ] {
        assert!(nothing_left_to_fold(&parse_text(text)), "{text}");
    }
}

#[test]
fn folded_and_unfolded_trees_agree() {
    let env = HashMap::from([("x", 3.0), ("y", -0.5)]);
    let raw = Expr::new_add(
        Expr::new_mul(Expr::new_add(num(1.0), num(2.0)), var("x")),
        Expr::new_div(num(8.0), Expr::new_sub(var("y"), num(0.5))),
    );
    let folded = parse_text("(1+2)*x+8/(y-0.5)");
    assert_eq!(walk(&folded, &env), walk(&raw, &env));
    assert_eq!(walk(&folded, &env), 1.0);
    let pairs = [("x", 3.0), ("y", -0.5)];
    assert_eq!(eval(&folded, &pairs), eval(&raw, &pairs));
    assert_eq!(eval(&folded, &pairs), Some(1.0));
    assert_eq!(eval(&folded, &[("x", 3.0)]), None);
    assert_eq!(eval(&raw, &[("x", 3.0)]), None);
}

#[test]
fn eval_agrees_with_a_plain_walk() {
    let env = HashMap::from([("a", 1.5), ("b", -2.0), ("c", 0.25)]);
    let pairs = [("a", 1.5), ("b", -2.0), ("c", 0.25)];
    for text in ["a+b*c", "a/b-c", "(a+b)(c)", "2a b/(1+c)", "a-b-c", "a/b/c", "1/3+a"] {
        let tree = parse_text(text);
        assert_eq!(eval(&tree, &pairs), Some(walk(&tree, &env)), "{text}");
    }
    let sine = Expr::new_sin(Expr::new_mul(var("a"), num(2.0)));
    assert_eq!(eval(&sine, &pairs), Some(3.0f32.sin()));
}

#[test]
fn eval_needs_every_variable() {
    assert_eq!(eval(&var("x"), &[]), None);
    assert_eq!(eval(&var("x"), &[("y", 1.0)]), None);
    assert_eq!(eval(&Expr::new_add(num(1.0), var("x")), &[]), None);
    assert_eq!(eval(&Expr::new_add(var("x"), num(1.0)), &[]), None);
    assert_eq!(eval(&Expr::new_sin(var("x")), &[]), None);
    assert_eq!(eval(&num(1.0), &[]), Some(1.0));
}

#[test]
fn is_constant_finds_variables() {
    assert!(num(1.0).is_constant());
    assert!(!var("x").is_constant());
    assert!(Expr::new_sin(Expr::new_div(num(1.0), num(2.0))).is_constant());
    assert!(!Expr::new_sub(num(1.0), Expr::new_sin(var("x"))).is_constant());
    assert!(!Expr::new_mul(var("x"), num(1.0)).is_constant());
}

#[test]
fn eval_const_walks_the_tree() {
    let tree = Expr::new_sub(
        Expr::new_mul(num(3.0), num(4.0)),
        Expr::new_div(num(1.0), num(4.0)),
    );
    assert_eq!(float(tree.eval_const(&kernel)), 11.75);
    assert_eq!(float(Expr::new_sin(num(1.0)).eval_const(&kernel)), 1.0f32.sin());
    assert_eq!(float(num(-2.5).eval_const(&kernel)), -2.5);
}

#[test]
fn empty_input_ends_too_early() {
    assert_eq!(try_parse(vec![], &kernel), Err(ParseError::UnexpectedEnd));
}

#[test]
fn missing_operand_ends_too_early() {
    assert_eq!(try_parse_text("1+"), Err(ParseError::UnexpectedEnd));
    assert_eq!(try_parse_text("1*"), Err(ParseError::UnexpectedEnd));
    assert_eq!(try_parse_text("("), Err(ParseError::UnexpectedEnd));
    assert_eq!(try_parse_text("(1+2"), Err(ParseError::UnexpectedEnd));
    assert_eq!(try_parse_text("2(x"), Err(ParseError::UnexpectedEnd));
}

#[test]
fn misplaced_tokens_are_unexpected() {
    assert_eq!(try_parse_text("+1"), Err(ParseError::UnexpectedToken));
    assert_eq!(try_parse_text("1+*2"), Err(ParseError::UnexpectedToken));
    assert_eq!(try_parse_text(")"), Err(ParseError::UnexpectedToken));
    assert_eq!(try_parse_text("()"), Err(ParseError::UnexpectedToken));
    assert_eq!(try_parse_text("(1 2)"), Err(ParseError::UnexpectedToken));
    assert_eq!(try_parse_text("1)"), Err(ParseError::UnexpectedToken));
    assert_eq!(try_parse_text("2^3"), Err(ParseError::UnexpectedToken));
    assert_eq!(try_parse_text("1,2"), Err(ParseError::UnexpectedToken));
    assert_eq!(try_parse(vec![Token::EOF], &kernel), Err(ParseError::UnexpectedToken));
    assert_eq!(
        try_parse(vec![number(1.0), Token::EOF], &kernel),
        Err(ParseError::UnexpectedToken)
    );
}

#[test]
fn try_parse_gives_what_parse_gives() {
    for text in ["1+2", "2x", "x(x+1)", "a-b-c", "2*3+4"] {
        assert_eq!(try_parse_text(text), Ok(parse_text(text)), "{text}");
    }
}

#[test]
fn token_iter_peeks_and_takes() {
    let mut tokens = TokenIter::new(vec![ident("a"), Token::Plus]);
    assert_eq!(tokens.peek(), Some(&ident("a")));
    assert_eq!(tokens.next(), Some(ident("a")));
    assert_eq!(tokens.peek(), Some(&Token::Plus));
    assert_eq!(tokens.next(), Some(Token::Plus));
    assert_eq!(tokens.peek(), None);
    assert_eq!(tokens.next(), None);
}

#[test]
fn token_duplicate_is_equal() {
    for token in [ident("abc"), number(1.5), Token::Sin, Token::EOF, Token::Comma] {
        assert_eq!(token.duplicate(), token);
    }
}

#[test]
fn productions_leave_what_follows() {
    let mut tokens = TokenIter::new(tokenize("2*3+4)", &kernel).unwrap());
    assert_eq!(parse_product(&mut tokens, &kernel), Ok((num(6.0), true)));
    assert_eq!(tokens.peek(), Some(&Token::Plus));

    let mut tokens = TokenIter::new(tokenize("2*3+x)", &kernel).unwrap());
    assert_eq!(
        parse_sum(&mut tokens, &kernel),
        Ok((Expr::new_add(num(6.0), var("x")), false))
    );
    assert_eq!(tokens.peek(), Some(&Token::RParen));

    let mut tokens = TokenIter::new(tokenize("2x*3", &kernel).unwrap());
    assert_eq!(
        parse_atom(&mut tokens, &kernel),
        Ok((Expr::new_mul(num(2.0), var("x")), false))
    );
    assert_eq!(tokens.peek(), Some(&Token::Star));

    let mut tokens = TokenIter::new(tokenize("(1+1)x", &kernel).unwrap());
    assert_eq!(parse_parens(&mut tokens, &kernel), Ok((num(2.0), true)));
    assert_eq!(tokens.peek(), Some(&ident("x")));

    let mut tokens = TokenIter::new(tokenize("1-1 1", &kernel).unwrap());
    assert_eq!(parse_expr(&mut tokens, &kernel), Ok((num(0.0), true)));
    assert_eq!(tokens.peek(), Some(&number(1.0)));
}

#[test]
fn parens_need_both_ends() {
    let mut tokens = TokenIter::new(tokenize("1)", &kernel).unwrap());
    assert_eq!(parse_parens(&mut tokens, &kernel), Err(ParseError::UnexpectedToken));
    let mut tokens = TokenIter::new(tokenize("(1", &kernel).unwrap());
    assert_eq!(parse_parens(&mut tokens, &kernel), Err(ParseError::UnexpectedEnd));
    let mut tokens = TokenIter::new(tokenize("(1 2", &kernel).unwrap());
    assert_eq!(parse_parens(&mut tokens, &kernel), Err(ParseError::UnexpectedToken));
    let mut tokens = TokenIter::new(vec![]);
    assert_eq!(parse_parens(&mut tokens, &kernel), Err(ParseError::UnexpectedEnd));
}

#[test]
fn implicit_multiplication_takes_what_follows_an_atom() {
    let mut tokens = TokenIter::new(tokenize("x(2)+1", &kernel).unwrap());
    assert_eq!(
        parse_implicit_multiplication(num(3.0), true, &mut tokens, &kernel),
        Ok((Expr::new_mul(Expr::new_mul(num(3.0), var("x")), num(2.0)), false))
    );
    assert_eq!(tokens.peek(), Some(&Token::Plus));

    let mut tokens = TokenIter::new(tokenize("(2)(5)", &kernel).unwrap());
    assert_eq!(
        parse_implicit_multiplication(num(3.0), true, &mut tokens, &kernel),
        Ok((num(30.0), true))
    );

    let mut tokens = TokenIter::new(tokenize("*2", &kernel).unwrap());
    assert_eq!(
        parse_implicit_multiplication(var("x"), false, &mut tokens, &kernel),
        Ok((var("x"), false))
    );
    assert_eq!(tokens.peek(), Some(&Token::Star));
}

#[test]
fn merge_folds_only_constants() {
    assert_eq!(
        merge_to_bin_op(&Token::Minus, num(5.0), num(7.0), true, &kernel),
        num(-2.0)
    );
    assert_eq!(
        merge_to_bin_op(&Token::Minus, num(5.0), var("x"), false, &kernel),
        Expr::new_sub(num(5.0), var("x"))
    );
    assert_eq!(
        merge_to_bin_op(&Token::Slash, num(1.0), num(8.0), true, &kernel),
        num(0.125)
    );
}

#[test]
fn operators_apply_to_values() {
    assert_eq!(
        float(op_token_apply_unchecked(&Token::Plus, num(5.0), num(7.0), &kernel)),
        12.0
    );
    assert_eq!(
        float(op_token_apply_unchecked(&Token::Minus, num(5.0), num(7.0), &kernel)),
        -2.0
    );
    assert_eq!(
        float(op_token_apply_unchecked(&Token::Star, num(5.0), num(7.0), &kernel)),
        35.0
    );
    assert_eq!(
        float(op_token_apply_unchecked(&Token::Slash, num(5.0), num(8.0), &kernel)),
        0.625
    );
}

#[test]
fn operators_build_nodes() {
    assert_eq!(
        op_token_to_expr_unchecked(&Token::Plus, var("a"), var("b")),
        Expr::Add(Box::new(var("a")), Box::new(var("b")))
    );
    assert_eq!(
        op_token_to_expr_unchecked(&Token::Minus, var("a"), var("b")),
        Expr::Sub(Box::new(var("a")), Box::new(var("b")))
    );
    assert_eq!(
        op_token_to_expr_unchecked(&Token::Star, var("a"), var("b")),
        Expr::Mul(Box::new(var("a")), Box::new(var("b")))
    );
    assert_eq!(
        op_token_to_expr_unchecked(&Token::Slash, var("a"), var("b")),
        Expr::Div(Box::new(var("a")), Box::new(var("b")))
    );
}

#[test]
fn the_kernel_is_asked_left_operand_first() {
    let asked = std::cell::RefCell::new(Vec::new());
    let recording = |op: Operation| {
        asked.borrow_mut().push(format!("{op:?}"));
        kernel(op)
    };
    let tokens = tokenize("(1+2)*(3-4)", &kernel).unwrap();
    assert_eq!(parse(tokens, &recording), num(-3.0));
    let one = scalar(1.0);
    let two = scalar(2.0);
    let three = scalar(3.0);
    let four = scalar(4.0);
    let minus_one = scalar(-1.0);
    assert_eq!(
        *asked.borrow(),
        vec![
            format!("{:?}", Operation::Add(one, two)),
            format!("{:?}", Operation::Sub(three, four)),
            format!("{:?}", Operation::Mul(three, minus_one)),
        ]
    );
}
