//! The parser: recursive descent over a token cursor, folding every constant
//! sub-expression into a single number at the moment it is built.
//!
//! Each function reads one production of the grammar. It gives back the
//! tree, already folded, and whether that tree is constant.

use vstd::prelude::*;
use crate::arith::{model, perform, well_behaved, Arithmetic, Operation};
use crate::expr::{
    lemma_fold_is_exhaustive,
    lemma_fold_is_idempotent,
    lemma_fold_keeps_meaning,
    Expr,
    ExprView,
};
use crate::scalar::Scalar;
use super::grammar::{
    atom,
    binary,
    expr,
    implicit_factors,
    is_operator,
    lemma_atom_advances,
    lemma_parens_advances,
    lemma_primary_advances,
    lemma_product_advances,
    lemma_syntax_constant,
    no_identifier,
    parens,
    primary,
    product,
    product_tail,
    sum,
    sum_tail,
    syntax,
    Derivation,
    ParseError,
};
use super::token::{token_views, Token, TokenIter, TokenView};

verus! {

/// Whether a tree is constant.
pub type IsConst = bool;

/// What a parsing function owes for a derivation: on success the folded
/// tree, whether the syntax tree is constant, and a cursor in front of what
/// the production leaves; on failure the error of the derivation.
pub open spec fn delivers(
    derivation: Derivation,
    arith: Arithmetic,
    result: Result<(Expr, IsConst), ParseError>,
    left: Seq<TokenView>,
) -> bool {
    match derivation {
        Ok((tree, rest)) => {
            &&& result matches Ok((folded, is_const))
            &&& folded@ == tree.fold(arith)
            &&& is_const == tree.constant()
            &&& left == rest
        },
        Err(e) => result matches Err(err) && err == e,
    }
}

/// The folding of an operator node, from the foldings of its operands:
/// where both operands are constant it is the one number that the operator
/// yields on their values, else the node over the folded operands.
proof fn lemma_fold_binary(operator: TokenView, lhs: ExprView, rhs: ExprView, arith: Arithmetic)
    requires
        is_operator(operator),
    ensures
        binary(operator, lhs, rhs).constant() == (lhs.constant() && rhs.constant()),
        lhs.constant() && rhs.constant() ==> binary(operator, lhs, rhs).fold(arith)
            == ExprView::Num(
            binary(operator, lhs.fold(arith), rhs.fold(arith)).value(arith),
        ),
        !(lhs.constant() && rhs.constant()) ==> binary(operator, lhs, rhs).fold(arith) == binary(
            operator,
            lhs.fold(arith),
            rhs.fold(arith),
        ),
{
    lemma_fold_is_exhaustive(lhs, arith);
    lemma_fold_is_exhaustive(rhs, arith);
    let node = binary(operator, lhs, rhs);
    let folded = binary(operator, lhs.fold(arith), rhs.fold(arith));
    assert(lhs.constant() ==> lhs.fold(arith).value(arith) == lhs.value(arith));
    assert(rhs.constant() ==> rhs.fold(arith).value(arith) == rhs.value(arith));
    assert(lhs.constant() && rhs.constant() ==> node.value(arith) == folded.value(arith));
}

/// The factors that follow a tree are multiplied into it alike, up to
/// folding, whether or not the tree was folded beforehand.
proof fn lemma_implicit_factors_fold(a: ExprView, b: ExprView, s: Seq<TokenView>, arith: Arithmetic)
    requires
        a.fold(arith) == b.fold(arith),
    ensures
        match implicit_factors(a, s) {
            Ok((ra, rest)) => {
                &&& implicit_factors(b, s) matches Ok((rb, rest_b))
                &&& rest_b == rest
                &&& rb.fold(arith) == ra.fold(arith)
                &&& rb.constant() == ra.constant()
            },
            Err(e) => implicit_factors(b, s) == Err::<(ExprView, Seq<TokenView>), ParseError>(e),
        },
    decreases s.len(),
{
    lemma_fold_is_exhaustive(a, arith);
    lemma_fold_is_exhaustive(b, arith);
    if s.len() > 0 {
        match s[0] {
            TokenView::Ident(name) => {
                let factor = ExprView::Var(name);
                lemma_fold_binary(TokenView::Star, a, factor, arith);
                lemma_fold_binary(TokenView::Star, b, factor, arith);
                lemma_implicit_factors_fold(
                    ExprView::Mul(Box::new(a), Box::new(factor)),
                    ExprView::Mul(Box::new(b), Box::new(factor)),
                    s.drop_first(),
                    arith,
                );
            },
            TokenView::LParen => {
                if let Ok((factor, rest)) = parens(s) {
                    if rest.len() < s.len() {
                        lemma_fold_binary(TokenView::Star, a, factor, arith);
                        lemma_fold_binary(TokenView::Star, b, factor, arith);
                        lemma_implicit_factors_fold(
                            ExprView::Mul(Box::new(a), Box::new(factor)),
                            ExprView::Mul(Box::new(b), Box::new(factor)),
                            rest,
                            arith,
                        );
                    }
                }
            },
            _ => {},
        }
    }
}

/// Applies a binary operator to the values of two constant trees.
pub fn op_token_apply_unchecked<K: Fn(Operation) -> Scalar>(
    token: &Token,
    lhs: Expr,
    rhs: Expr,
    kernel: &K,
) -> (r: Scalar)
    requires
        well_behaved(kernel),
        is_operator(token@),
        lhs@.constant(),
        rhs@.constant(),
    ensures
        r == binary(token@, lhs@, rhs@).value(model(kernel)),
{
    let a = lhs.eval_const(kernel);
    let b = rhs.eval_const(kernel);
    match token {
        Token::Plus => perform(kernel, Operation::Add(a, b)),
        Token::Minus => perform(kernel, Operation::Sub(a, b)),
        Token::Star => perform(kernel, Operation::Mul(a, b)),
        _ => perform(kernel, Operation::Div(a, b)),
    }
}

/// Builds the node of a binary operator over two trees.
pub fn op_token_to_expr_unchecked(token: &Token, lhs: Expr, rhs: Expr) -> (r: Expr)
    requires
        is_operator(token@),
    ensures
        r@ == binary(token@, lhs@, rhs@),
{
    match token {
        Token::Plus => Expr::new_add(lhs, rhs),
        Token::Minus => Expr::new_sub(lhs, rhs),
        Token::Star => Expr::new_mul(lhs, rhs),
        _ => Expr::new_div(lhs, rhs),
    }
}

/// Merges two trees under a binary operator: into the number that the
/// operator yields on their values where `is_const` says that both are
/// constant, else into the operator's node.
pub fn merge_to_bin_op<K: Fn(Operation) -> Scalar>(
    token: &Token,
    lhs: Expr,
    rhs: Expr,
    is_const: bool,
    kernel: &K,
) -> (r: Expr)
    requires
        well_behaved(kernel),
        is_operator(token@),
        is_const ==> lhs@.constant() && rhs@.constant(),
    ensures
        r@ == (if is_const {
            ExprView::Num(binary(token@, lhs@, rhs@).value(model(kernel)))
        } else {
            binary(token@, lhs@, rhs@)
        }),
{
    if is_const {
        Expr::Num(op_token_apply_unchecked(token, lhs, rhs, kernel))
    } else {
        op_token_to_expr_unchecked(token, lhs, rhs)
    }
}

/// Reads `'(' expr ')'`.
pub fn parse_parens<K: Fn(Operation) -> Scalar>(tokens: &mut TokenIter, kernel: &K) -> (r: Result<
    (Expr, IsConst),
    ParseError,
>)
    requires
        well_behaved(kernel),
    ensures
        delivers(parens(old(tokens)@), model(kernel), r, final(tokens)@),
    decreases old(tokens)@.len(), 0int,
{
    match tokens.next() {
        None => {
            return Err(ParseError::UnexpectedEnd);
        },
        Some(Token::LParen) => {},
        Some(_) => {
            return Err(ParseError::UnexpectedToken);
        },
    }
    let (inner, is_inner_const) = parse_expr(tokens, kernel)?;
    match tokens.next() {
        None => Err(ParseError::UnexpectedEnd),
        Some(Token::RParen) => Ok((inner, is_inner_const)),
        Some(_) => Err(ParseError::UnexpectedToken),
    }
}

/// Multiplies into `lhs` every factor that follows it without an operator:
/// an identifier, or an expression in parentheses.
pub fn parse_implicit_multiplication<K: Fn(Operation) -> Scalar>(
    lhs: Expr,
    is_lhs_const: IsConst,
    tokens: &mut TokenIter,
    kernel: &K,
) -> (r: Result<(Expr, IsConst), ParseError>)
    requires
        well_behaved(kernel),
        lhs@.folded(),
        is_lhs_const == lhs@.constant(),
    ensures
        delivers(implicit_factors(lhs@, old(tokens)@), model(kernel), r, final(tokens)@),
    decreases old(tokens)@.len(), 1int,
{
    let ghost first = lhs@;
    let ghost mut tree = lhs@;
    let ghost start = tokens@;
    let mut acc = lhs;
    let mut is_acc_const = is_lhs_const;
    proof {
        lemma_fold_is_idempotent(first, model(kernel));
    }
    loop
        invariant
            well_behaved(kernel),
            first == lhs@,
            start == old(tokens)@,
            acc@ == tree.fold(model(kernel)),
            is_acc_const == tree.constant(),
            tokens@.len() <= start.len(),
            implicit_factors(tree, tokens@) == implicit_factors(first, start),
        ensures
            implicit_factors(first, start) == Ok::<(ExprView, Seq<TokenView>), ParseError>(
                (tree, tokens@),
            ),
            acc@ == tree.fold(model(kernel)),
            is_acc_const == tree.constant(),
        decreases tokens@.len(),
    {
        let ghost s = tokens@;
        match tokens.peek() {
            Some(Token::Ident(_)) => {
                let name = match tokens.next() {
                    Some(Token::Ident(name)) => name,
                    _ => unreached(),
                };
                proof {
                    let factor = ExprView::Var(name@);
                    lemma_fold_binary(TokenView::Star, tree, factor, model(kernel));
                    tree = ExprView::Mul(Box::new(tree), Box::new(factor));
                }
                acc = Expr::new_mul(acc, Expr::Var(name));
                is_acc_const = false;
            },
            Some(Token::LParen) => {
                proof {
                    lemma_parens_advances(s);
                }
                let (inner, is_inner_const) = parse_parens(tokens, kernel)?;
                let is_both_const = is_acc_const && is_inner_const;
                proof {
                    let factor = parens(s)->Ok_0.0;
                    lemma_fold_binary(TokenView::Star, tree, factor, model(kernel));
                    tree = ExprView::Mul(Box::new(tree), Box::new(factor));
                }
                acc = merge_to_bin_op(&Token::Star, acc, inner, is_both_const, kernel);
                is_acc_const = is_both_const;
            },
            _ => {
                break ;
            },
        }
    }
    Ok((acc, is_acc_const))
}

/// Reads an atom: a number, an identifier, an expression in parentheses or
/// a sine, and the factors that follow it without an operator.
pub fn parse_atom<K: Fn(Operation) -> Scalar>(tokens: &mut TokenIter, kernel: &K) -> (r: Result<
    (Expr, IsConst),
    ParseError,
>)
    requires
        well_behaved(kernel),
    ensures
        delivers(atom(old(tokens)@), model(kernel), r, final(tokens)@),
    decreases old(tokens)@.len(), 2int,
{
    let ghost s = tokens@;
    proof {
        lemma_primary_advances(s);
    }
    let (lhs, is_lhs_const) = match tokens.peek() {
        None => {
            return Err(ParseError::UnexpectedEnd);
        },
        Some(Token::LParen) => parse_parens(tokens, kernel)?,
        Some(Token::Number(_)) => {
            match tokens.next() {
                Some(Token::Number(n)) => (Expr::Num(n), true),
                _ => unreached(),
            }
        },
        Some(Token::Ident(_)) => {
            match tokens.next() {
                Some(Token::Ident(name)) => (Expr::Var(name), false),
                _ => unreached(),
            }
        },
        Some(Token::Sin) => {
            tokens.next();
            let (inner, is_inner_const) = parse_parens(tokens, kernel)?;
            let sin = Expr::new_sin(inner);
            proof {
                let argument = parens(s.drop_first())->Ok_0.0;
                lemma_fold_is_exhaustive(argument, model(kernel));
                assert(argument.constant() ==> argument.fold(model(kernel)).value(model(kernel))
                    == argument.value(model(kernel)));
            }
            if is_inner_const {
                (Expr::Num(sin.eval_const(kernel)), true)
            } else {
                (sin, false)
            }
        },
        Some(_) => {
            return Err(ParseError::UnexpectedToken);
        },
    };
    proof {
        let head = primary(s)->Ok_0.0;
        lemma_fold_is_exhaustive(head, model(kernel));
        lemma_fold_is_idempotent(head, model(kernel));
        lemma_implicit_factors_fold(head, lhs@, tokens@, model(kernel));
    }
    parse_implicit_multiplication(lhs, is_lhs_const, tokens, kernel)
}

/// Reads a product: atoms joined by `*` and `/`, from left to right.
pub fn parse_product<K: Fn(Operation) -> Scalar>(tokens: &mut TokenIter, kernel: &K) -> (r: Result<
    (Expr, IsConst),
    ParseError,
>)
    requires
        well_behaved(kernel),
    ensures
        delivers(product(old(tokens)@), model(kernel), r, final(tokens)@),
    decreases old(tokens)@.len(), 4int,
{
    let ghost start = tokens@;
    proof {
        lemma_atom_advances(start);
    }
    let (mut lhs, mut is_lhs_const) = parse_atom(tokens, kernel)?;
    let ghost mut tree = atom(start)->Ok_0.0;
    loop
        invariant
            well_behaved(kernel),
            lhs@ == tree.fold(model(kernel)),
            is_lhs_const == tree.constant(),
            start == old(tokens)@,
            tokens@.len() < start.len(),
            product_tail(tree, tokens@) == product(start),
        ensures
            product(start) == Ok::<(ExprView, Seq<TokenView>), ParseError>((tree, tokens@)),
            lhs@ == tree.fold(model(kernel)),
            is_lhs_const == tree.constant(),
        decreases tokens@.len(),
    {
        let ghost s = tokens@;
        match tokens.peek() {
            Some(Token::Star) | Some(Token::Slash) => {},
            _ => {
                break ;
            },
        }
        let token = match tokens.next() {
            Some(token) => token,
            None => unreached(),
        };
        proof {
            lemma_atom_advances(s.drop_first());
        }
        let (rhs, is_rhs_const) = parse_atom(tokens, kernel)?;
        let is_both_const = is_lhs_const && is_rhs_const;
        proof {
            let operand = atom(s.drop_first())->Ok_0.0;
            lemma_fold_binary(token@, tree, operand, model(kernel));
            tree = binary(token@, tree, operand);
        }
        lhs = merge_to_bin_op(&token, lhs, rhs, is_both_const, kernel);
        is_lhs_const = is_both_const;
    }
    Ok((lhs, is_lhs_const))
}

/// Reads a sum: products joined by `+` and `-`, from left to right.
pub fn parse_sum<K: Fn(Operation) -> Scalar>(tokens: &mut TokenIter, kernel: &K) -> (r: Result<
    (Expr, IsConst),
    ParseError,
>)
    requires
        well_behaved(kernel),
    ensures
        delivers(sum(old(tokens)@), model(kernel), r, final(tokens)@),
    decreases old(tokens)@.len(), 6int,
{
    let ghost start = tokens@;
    proof {
        lemma_product_advances(start);
    }
    let (mut lhs, mut is_lhs_const) = parse_product(tokens, kernel)?;
    let ghost mut tree = product(start)->Ok_0.0;
    loop
        invariant
            well_behaved(kernel),
            lhs@ == tree.fold(model(kernel)),
            is_lhs_const == tree.constant(),
            start == old(tokens)@,
            tokens@.len() < start.len(),
            sum_tail(tree, tokens@) == sum(start),
        ensures
            sum(start) == Ok::<(ExprView, Seq<TokenView>), ParseError>((tree, tokens@)),
            lhs@ == tree.fold(model(kernel)),
            is_lhs_const == tree.constant(),
        decreases tokens@.len(),
    {
        let ghost s = tokens@;
        match tokens.peek() {
            Some(Token::Plus) | Some(Token::Minus) => {},
            _ => {
                break ;
            },
        }
        let token = match tokens.next() {
            Some(token) => token,
            None => unreached(),
        };
        proof {
            lemma_product_advances(s.drop_first());
        }
        let (rhs, is_rhs_const) = parse_product(tokens, kernel)?;
        let is_both_const = is_lhs_const && is_rhs_const;
        proof {
            let operand = product(s.drop_first())->Ok_0.0;
            lemma_fold_binary(token@, tree, operand, model(kernel));
            tree = binary(token@, tree, operand);
        }
        lhs = merge_to_bin_op(&token, lhs, rhs, is_both_const, kernel);
        is_lhs_const = is_both_const;
    }
    Ok((lhs, is_lhs_const))
}

/// Reads an expression.
pub fn parse_expr<K: Fn(Operation) -> Scalar>(tokens: &mut TokenIter, kernel: &K) -> (r: Result<
    (Expr, IsConst),
    ParseError,
>)
    requires
        well_behaved(kernel),
    ensures
        delivers(expr(old(tokens)@), model(kernel), r, final(tokens)@),
    decreases old(tokens)@.len(), 7int,
{
    parse_sum(tokens, kernel)
}

/// Parses a token sequence: `Ok` with the folded tree where the whole
/// sequence is an expression of the grammar, else the error that tells why
/// it is not. In the folded tree nothing is left to fold; it is a single
/// number where no token is an identifier; and it evaluates, in every
/// environment, to what the syntax tree evaluates to.
pub fn try_parse<K: Fn(Operation) -> Scalar>(tokens: Vec<Token>, kernel: &K) -> (r: Result<
    Expr,
    ParseError,
>)
    requires
        well_behaved(kernel),
    ensures
        match syntax(token_views(tokens@)) {
            Ok(tree) => {
                &&& r matches Ok(folded)
                &&& folded@ == tree.fold(model(kernel))
                &&& folded@.folded()
                &&& no_identifier(token_views(tokens@)) ==> folded@ == ExprView::Num(
                    tree.value(model(kernel)),
                )
                &&& forall|env: Map<Seq<char>, Scalar>| #[trigger]
                    folded@.meaning(env, model(kernel)) == tree.meaning(env, model(kernel))
            },
            Err(e) => r matches Err(err) && err == e,
        },
{
    let mut tokens = TokenIter::new(tokens);
    let ghost s = tokens@;
    match parse_expr(&mut tokens, kernel) {
        Ok((folded, _)) => {
            proof {
                let tree = expr(s)->Ok_0.0;
                lemma_fold_is_exhaustive(tree, model(kernel));
                if no_identifier(s) {
                    lemma_syntax_constant(s);
                }
                assert forall|env: Map<Seq<char>, Scalar>| #[trigger]
                    folded@.meaning(env, model(kernel)) == tree.meaning(env, model(kernel)) by {
                    lemma_fold_keeps_meaning(tree, env, model(kernel));
                }
            }
            match tokens.peek() {
                None => Ok(folded),
                Some(_) => Err(ParseError::UnexpectedToken),
            }
        },
        Err(e) => Err(e),
    }
}

/// Parses a token sequence that is an expression of the grammar into its
/// folded tree. In it nothing is left to fold; it is a single number where
/// no token is an identifier; and it evaluates, in every environment, to
/// what the syntax tree evaluates to.
pub fn parse<K: Fn(Operation) -> Scalar>(tokens: Vec<Token>, kernel: &K) -> (r: Expr)
    requires
        well_behaved(kernel),
        syntax(token_views(tokens@)) is Ok,
    ensures
        r@ == syntax(token_views(tokens@))->Ok_0.fold(model(kernel)),
        r@.folded(),
        no_identifier(token_views(tokens@)) ==> r@ == ExprView::Num(
            syntax(token_views(tokens@))->Ok_0.value(model(kernel)),
        ),
        forall|env: Map<Seq<char>, Scalar>| #[trigger]
            r@.meaning(env, model(kernel)) == syntax(token_views(tokens@))->Ok_0.meaning(
                env,
                model(kernel),
            ),
{
    match try_parse(tokens, kernel) {
        Ok(folded) => folded,
        Err(_) => unreached(),
    }
}

} // verus!
