//! The grammar, as functions from a token sequence to the tree it derives.
//!
//! ```text
//! expr    := sum
//! sum     := product ( ('+'|'-') product )*
//! product := atom    ( ('*'|'/') atom )*
//! atom    := primary ( IDENT | '(' expr ')' )*
//! primary := NUMBER | IDENT | '(' expr ')' | 'sin' '(' expr ')'
//! ```
//!
//! Each function reads a production at the front of the sequence and gives
//! the tree together with the tokens that follow it. The trees here are the
//! plain syntax: nothing is folded.
//!
//! Where one production is read after another, the definition tests that
//! the first has left fewer tokens than it was given. The test is there for
//! the definitions to be well-founded, and it never fails: see
//! [`lemma_expr_advances`] and its companions.

use vstd::prelude::*;
use crate::expr::ExprView;
use super::token::TokenView;

verus! {

/// Why a token sequence derives no tree.
#[derive(Clone, Copy, Debug, PartialEq, Eq, Structural)]
pub enum ParseError {
    /// A token that cannot stand where it does.
    UnexpectedToken,
    /// The sequence ends where a token is needed.
    UnexpectedEnd,
}

/// A tree and the tokens that follow it, or the reason why there is none.
pub type Derivation = Result<(ExprView, Seq<TokenView>), ParseError>;

/// `+`, `-`, `*` or `/`.
pub open spec fn is_operator(token: TokenView) -> bool {
    token is Plus || token is Minus || token is Star || token is Slash
}

/// The node that a binary operator builds from its operands.
pub open spec fn binary(operator: TokenView, lhs: ExprView, rhs: ExprView) -> ExprView {
    match operator {
        TokenView::Plus => ExprView::Add(Box::new(lhs), Box::new(rhs)),
        TokenView::Minus => ExprView::Sub(Box::new(lhs), Box::new(rhs)),
        TokenView::Star => ExprView::Mul(Box::new(lhs), Box::new(rhs)),
        _ => ExprView::Div(Box::new(lhs), Box::new(rhs)),
    }
}

/// `'(' expr ')'`
pub open spec fn parens(s: Seq<TokenView>) -> Derivation
    decreases s.len(), 0int,
{
    if s.len() == 0 {
        Err(ParseError::UnexpectedEnd)
    } else if !(s[0] is LParen) {
        Err(ParseError::UnexpectedToken)
    } else {
        match expr(s.drop_first()) {
            Ok((inner, rest)) => {
                if rest.len() == 0 {
                    Err(ParseError::UnexpectedEnd)
                } else if !(rest[0] is RParen) {
                    Err(ParseError::UnexpectedToken)
                } else {
                    Ok((inner, rest.drop_first()))
                }
            },
            Err(e) => Err(e),
        }
    }
}

/// `NUMBER | IDENT | '(' expr ')' | 'sin' '(' expr ')'`
pub open spec fn primary(s: Seq<TokenView>) -> Derivation
    decreases s.len(), 1int,
{
    if s.len() == 0 {
        Err(ParseError::UnexpectedEnd)
    } else {
        match s[0] {
            TokenView::Number(value) => Ok((ExprView::Num(value), s.drop_first())),
            TokenView::Ident(name) => Ok((ExprView::Var(name), s.drop_first())),
            TokenView::LParen => parens(s),
            TokenView::Sin => match parens(s.drop_first()) {
                Ok((inner, rest)) => Ok((ExprView::Sin(Box::new(inner)), rest)),
                Err(e) => Err(e),
            },
            _ => Err(ParseError::UnexpectedToken),
        }
    }
}

/// `( IDENT | '(' expr ')' )*` after `lhs`: each factor that follows without
/// an operator is multiplied in, from left to right.
pub open spec fn implicit_factors(lhs: ExprView, s: Seq<TokenView>) -> Derivation
    decreases s.len(), 1int,
{
    if s.len() == 0 {
        Ok((lhs, s))
    } else {
        match s[0] {
            TokenView::Ident(name) => implicit_factors(
                ExprView::Mul(Box::new(lhs), Box::new(ExprView::Var(name))),
                s.drop_first(),
            ),
            TokenView::LParen => match parens(s) {
                Ok((inner, rest)) => {
                    if rest.len() < s.len() {
                        implicit_factors(ExprView::Mul(Box::new(lhs), Box::new(inner)), rest)
                    } else {
                        Err(ParseError::UnexpectedEnd)
                    }
                },
                Err(e) => Err(e),
            },
            _ => Ok((lhs, s)),
        }
    }
}

/// `primary ( IDENT | '(' expr ')' )*`
pub open spec fn atom(s: Seq<TokenView>) -> Derivation
    decreases s.len(), 2int,
{
    match primary(s) {
        Ok((lhs, rest)) => {
            if rest.len() < s.len() {
                implicit_factors(lhs, rest)
            } else {
                Err(ParseError::UnexpectedEnd)
            }
        },
        Err(e) => Err(e),
    }
}

/// `( ('*'|'/') atom )*` after `lhs`, associating to the left.
pub open spec fn product_tail(lhs: ExprView, s: Seq<TokenView>) -> Derivation
    decreases s.len(), 3int,
{
    if s.len() > 0 && (s[0] is Star || s[0] is Slash) {
        match atom(s.drop_first()) {
            Ok((rhs, rest)) => {
                if rest.len() < s.len() {
                    product_tail(binary(s[0], lhs, rhs), rest)
                } else {
                    Err(ParseError::UnexpectedEnd)
                }
            },
            Err(e) => Err(e),
        }
    } else {
        Ok((lhs, s))
    }
}

/// `atom ( ('*'|'/') atom )*`
pub open spec fn product(s: Seq<TokenView>) -> Derivation
    decreases s.len(), 4int,
{
    match atom(s) {
        Ok((lhs, rest)) => {
            if rest.len() < s.len() {
                product_tail(lhs, rest)
            } else {
                Err(ParseError::UnexpectedEnd)
            }
        },
        Err(e) => Err(e),
    }
}

/// `( ('+'|'-') product )*` after `lhs`, associating to the left.
pub open spec fn sum_tail(lhs: ExprView, s: Seq<TokenView>) -> Derivation
    decreases s.len(), 5int,
{
    if s.len() > 0 && (s[0] is Plus || s[0] is Minus) {
        match product(s.drop_first()) {
            Ok((rhs, rest)) => {
                if rest.len() < s.len() {
                    sum_tail(binary(s[0], lhs, rhs), rest)
                } else {
                    Err(ParseError::UnexpectedEnd)
                }
            },
            Err(e) => Err(e),
        }
    } else {
        Ok((lhs, s))
    }
}

/// `product ( ('+'|'-') product )*`
pub open spec fn sum(s: Seq<TokenView>) -> Derivation
    decreases s.len(), 6int,
{
    match product(s) {
        Ok((lhs, rest)) => {
            if rest.len() < s.len() {
                sum_tail(lhs, rest)
            } else {
                Err(ParseError::UnexpectedEnd)
            }
        },
        Err(e) => Err(e),
    }
}

/// `sum`
pub open spec fn expr(s: Seq<TokenView>) -> Derivation
    decreases s.len(), 7int,
{
    sum(s)
}

/// The tree that the whole of a token sequence derives: an expression with
/// no token left over.
pub open spec fn syntax(s: Seq<TokenView>) -> Result<ExprView, ParseError> {
    match expr(s) {
        Ok((tree, rest)) => {
            if rest.len() == 0 {
                Ok(tree)
            } else {
                Err(ParseError::UnexpectedToken)
            }
        },
        Err(e) => Err(e),
    }
}

/// What a production leaves is a proper suffix of what it was given.
pub open spec fn advances(s: Seq<TokenView>, d: Derivation) -> bool {
    d matches Ok((_, rest)) ==> rest.len() < s.len() && rest == s.skip(s.len() - rest.len())
}

/// What a repetition leaves is a suffix of what it was given.
pub open spec fn keeps_suffix(s: Seq<TokenView>, d: Derivation) -> bool {
    d matches Ok((_, rest)) ==> rest.len() <= s.len() && rest == s.skip(s.len() - rest.len())
}

/// A suffix of a suffix is a suffix.
proof fn lemma_suffix_of_suffix(s: Seq<TokenView>, mid: Seq<TokenView>, rest: Seq<TokenView>)
    requires
        mid.len() <= s.len(),
        mid == s.skip(s.len() - mid.len()),
        rest.len() <= mid.len(),
        rest == mid.skip(mid.len() - rest.len()),
    ensures
        rest == s.skip(s.len() - rest.len()),
{
    assert(s.skip(s.len() - mid.len()).skip(mid.len() - rest.len()) == s.skip(
        s.len() - rest.len(),
    ));
}

/// An expression in parentheses consumes at least one token and leaves a
/// suffix of its input. So does every production: the tests on length in
/// the grammar never fail.
pub proof fn lemma_parens_advances(s: Seq<TokenView>)
    ensures
        advances(s, parens(s)),
    decreases s.len(), 0int,
{
    if s.len() > 0 && s[0] is LParen {
        let body = s.drop_first();
        lemma_expr_advances(body);
        if let Ok((_, rest)) = expr(body) {
            if rest.len() > 0 {
                assert(body == s.skip(1));
                lemma_suffix_of_suffix(s, body, rest);
                lemma_suffix_of_suffix(s, rest, rest.drop_first());
            }
        }
    }
}

/// A primary consumes at least one token and leaves a suffix of its input.
pub proof fn lemma_primary_advances(s: Seq<TokenView>)
    ensures
        advances(s, primary(s)),
    decreases s.len(), 1int,
{
    if s.len() > 0 {
        assert(s.drop_first() == s.skip(1));
        match s[0] {
            TokenView::LParen => {
                lemma_parens_advances(s);
            },
            TokenView::Sin => {
                lemma_parens_advances(s.drop_first());
                if let Ok((_, rest)) = parens(s.drop_first()) {
                    lemma_suffix_of_suffix(s, s.drop_first(), rest);
                }
            },
            _ => {},
        }
    }
}

/// The implicit factors leave a suffix of the input.
pub proof fn lemma_implicit_factors_keeps_suffix(lhs: ExprView, s: Seq<TokenView>)
    ensures
        keeps_suffix(s, implicit_factors(lhs, s)),
    decreases s.len(), 1int,
{
    assert(s == s.skip(0));
    if s.len() > 0 {
        match s[0] {
            TokenView::Ident(name) => {
                let next = ExprView::Mul(Box::new(lhs), Box::new(ExprView::Var(name)));
                lemma_implicit_factors_keeps_suffix(next, s.drop_first());
                assert(s.drop_first() == s.skip(1));
                if let Ok((_, rest)) = implicit_factors(next, s.drop_first()) {
                    lemma_suffix_of_suffix(s, s.drop_first(), rest);
                }
            },
            TokenView::LParen => {
                lemma_parens_advances(s);
                if let Ok((inner, mid)) = parens(s) {
                    let next = ExprView::Mul(Box::new(lhs), Box::new(inner));
                    lemma_implicit_factors_keeps_suffix(next, mid);
                    if let Ok((_, rest)) = implicit_factors(next, mid) {
                        lemma_suffix_of_suffix(s, mid, rest);
                    }
                }
            },
            _ => {},
        }
    }
}

/// An atom consumes at least one token and leaves a suffix of its input.
pub proof fn lemma_atom_advances(s: Seq<TokenView>)
    ensures
        advances(s, atom(s)),
    decreases s.len(), 2int,
{
    lemma_primary_advances(s);
    if let Ok((lhs, mid)) = primary(s) {
        lemma_implicit_factors_keeps_suffix(lhs, mid);
        if let Ok((_, rest)) = implicit_factors(lhs, mid) {
            lemma_suffix_of_suffix(s, mid, rest);
        }
    }
}

/// The rest of a product leaves a suffix of the input.
pub proof fn lemma_product_tail_keeps_suffix(lhs: ExprView, s: Seq<TokenView>)
    ensures
        keeps_suffix(s, product_tail(lhs, s)),
    decreases s.len(), 3int,
{
    assert(s == s.skip(0));
    if s.len() > 0 && (s[0] is Star || s[0] is Slash) {
        let body = s.drop_first();
        assert(body == s.skip(1));
        lemma_atom_advances(body);
        if let Ok((rhs, mid)) = atom(body) {
            lemma_suffix_of_suffix(s, body, mid);
            let next = binary(s[0], lhs, rhs);
            lemma_product_tail_keeps_suffix(next, mid);
            if let Ok((_, rest)) = product_tail(next, mid) {
                lemma_suffix_of_suffix(s, mid, rest);
            }
        }
    }
}

/// A product consumes at least one token and leaves a suffix of its input.
pub proof fn lemma_product_advances(s: Seq<TokenView>)
    ensures
        advances(s, product(s)),
    decreases s.len(), 4int,
{
    lemma_atom_advances(s);
    if let Ok((lhs, mid)) = atom(s) {
        lemma_product_tail_keeps_suffix(lhs, mid);
        if let Ok((_, rest)) = product_tail(lhs, mid) {
            lemma_suffix_of_suffix(s, mid, rest);
        }
    }
}

/// The rest of a sum leaves a suffix of the input.
pub proof fn lemma_sum_tail_keeps_suffix(lhs: ExprView, s: Seq<TokenView>)
    ensures
        keeps_suffix(s, sum_tail(lhs, s)),
    decreases s.len(), 5int,
{
    assert(s == s.skip(0));
    if s.len() > 0 && (s[0] is Plus || s[0] is Minus) {
        let body = s.drop_first();
        assert(body == s.skip(1));
        lemma_product_advances(body);
        if let Ok((rhs, mid)) = product(body) {
            lemma_suffix_of_suffix(s, body, mid);
            let next = binary(s[0], lhs, rhs);
            lemma_sum_tail_keeps_suffix(next, mid);
            if let Ok((_, rest)) = sum_tail(next, mid) {
                lemma_suffix_of_suffix(s, mid, rest);
            }
        }
    }
}

/// A sum consumes at least one token and leaves a suffix of its input.
pub proof fn lemma_sum_advances(s: Seq<TokenView>)
    ensures
        advances(s, sum(s)),
    decreases s.len(), 6int,
{
    lemma_product_advances(s);
    if let Ok((lhs, mid)) = product(s) {
        lemma_sum_tail_keeps_suffix(lhs, mid);
        if let Ok((_, rest)) = sum_tail(lhs, mid) {
            lemma_suffix_of_suffix(s, mid, rest);
        }
    }
}

/// An expression consumes at least one token and leaves a suffix of its
/// input.
pub proof fn lemma_expr_advances(s: Seq<TokenView>)
    ensures
        advances(s, expr(s)),
    decreases s.len(), 7int,
{
    lemma_sum_advances(s);
}

/// No token of `s` is an identifier.
pub open spec fn no_identifier(s: Seq<TokenView>) -> bool {
    forall|i: int| 0 <= i < s.len() ==> !(#[trigger] s[i] is Ident)
}

/// What a derivation from tokens without identifiers yields: a constant
/// tree.
pub open spec fn yields_constant(d: Derivation) -> bool {
    d matches Ok((tree, _)) ==> tree.constant()
}

/// A suffix of tokens without identifiers has none either.
proof fn lemma_suffix_no_identifier(s: Seq<TokenView>, d: Derivation)
    requires
        no_identifier(s),
        keeps_suffix(s, d),
    ensures
        d matches Ok((_, rest)) ==> no_identifier(rest),
{
    if let Ok((_, rest)) = d {
        let k = s.len() - rest.len();
        assert forall|i: int| 0 <= i < rest.len() implies !(#[trigger] rest[i] is Ident) by {
            assert(rest[i] == s[i + k]);
        }
    }
}

/// An expression in parentheses without identifiers is constant. So is
/// every production: tokens without identifiers derive constant trees only.
proof fn lemma_parens_constant(s: Seq<TokenView>)
    requires
        no_identifier(s),
    ensures
        yields_constant(parens(s)),
    decreases s.len(), 0int,
{
    if s.len() > 0 && s[0] is LParen {
        let body = s.drop_first();
        assert(body == s.skip(1));
        assert(no_identifier(body)) by {
            assert forall|i: int| 0 <= i < body.len() implies !(#[trigger] body[i] is Ident) by {
                assert(body[i] == s[i + 1]);
            }
        }
        lemma_expr_constant(body);
    }
}

/// A primary without identifiers is constant.
proof fn lemma_primary_constant(s: Seq<TokenView>)
    requires
        no_identifier(s),
    ensures
        yields_constant(primary(s)),
    decreases s.len(), 1int,
{
    if s.len() > 0 {
        match s[0] {
            TokenView::LParen => {
                lemma_parens_constant(s);
            },
            TokenView::Sin => {
                let body = s.drop_first();
                assert(no_identifier(body)) by {
                    assert forall|i: int| 0 <= i < body.len() implies !(#[trigger] body[i]
                        is Ident) by {
                        assert(body[i] == s[i + 1]);
                    }
                }
                lemma_parens_constant(body);
            },
            _ => {
                assert(!(s[0] is Ident));
            },
        }
    }
}

/// Implicit factors without identifiers keep a constant tree constant.
proof fn lemma_implicit_factors_constant(lhs: ExprView, s: Seq<TokenView>)
    requires
        no_identifier(s),
        lhs.constant(),
    ensures
        yields_constant(implicit_factors(lhs, s)),
    decreases s.len(), 1int,
{
    if s.len() > 0 {
        match s[0] {
            TokenView::Ident(_) => {
                assert(!(s[0] is Ident));
            },
            TokenView::LParen => {
                lemma_parens_constant(s);
                lemma_parens_advances(s);
                lemma_suffix_no_identifier(s, parens(s));
                if let Ok((inner, rest)) = parens(s) {
                    lemma_implicit_factors_constant(
                        ExprView::Mul(Box::new(lhs), Box::new(inner)),
                        rest,
                    );
                }
            },
            _ => {},
        }
    }
}

/// An atom without identifiers is constant.
proof fn lemma_atom_constant(s: Seq<TokenView>)
    requires
        no_identifier(s),
    ensures
        yields_constant(atom(s)),
    decreases s.len(), 2int,
{
    lemma_primary_constant(s);
    lemma_primary_advances(s);
    lemma_suffix_no_identifier(s, primary(s));
    if let Ok((lhs, rest)) = primary(s) {
        lemma_implicit_factors_constant(lhs, rest);
    }
}

/// The rest of a product without identifiers keeps a constant tree
/// constant.
proof fn lemma_product_tail_constant(lhs: ExprView, s: Seq<TokenView>)
    requires
        no_identifier(s),
        lhs.constant(),
    ensures
        yields_constant(product_tail(lhs, s)),
    decreases s.len(), 3int,
{
    if s.len() > 0 && (s[0] is Star || s[0] is Slash) {
        let body = s.drop_first();
        assert(body == s.skip(1));
        assert(no_identifier(body)) by {
            assert forall|i: int| 0 <= i < body.len() implies !(#[trigger] body[i] is Ident) by {
                assert(body[i] == s[i + 1]);
            }
        }
        lemma_atom_constant(body);
        lemma_atom_advances(body);
        lemma_suffix_no_identifier(body, atom(body));
        if let Ok((rhs, rest)) = atom(body) {
            lemma_product_tail_constant(binary(s[0], lhs, rhs), rest);
        }
    }
}

/// A product without identifiers is constant.
proof fn lemma_product_constant(s: Seq<TokenView>)
    requires
        no_identifier(s),
    ensures
        yields_constant(product(s)),
    decreases s.len(), 4int,
{
    lemma_atom_constant(s);
    lemma_atom_advances(s);
    lemma_suffix_no_identifier(s, atom(s));
    if let Ok((lhs, rest)) = atom(s) {
        lemma_product_tail_constant(lhs, rest);
    }
}

/// The rest of a sum without identifiers keeps a constant tree constant.
proof fn lemma_sum_tail_constant(lhs: ExprView, s: Seq<TokenView>)
    requires
        no_identifier(s),
        lhs.constant(),
    ensures
        yields_constant(sum_tail(lhs, s)),
    decreases s.len(), 5int,
{
    if s.len() > 0 && (s[0] is Plus || s[0] is Minus) {
        let body = s.drop_first();
        assert(body == s.skip(1));
        assert(no_identifier(body)) by {
            assert forall|i: int| 0 <= i < body.len() implies !(#[trigger] body[i] is Ident) by {
                assert(body[i] == s[i + 1]);
            }
        }
        lemma_product_constant(body);
        lemma_product_advances(body);
        lemma_suffix_no_identifier(body, product(body));
        if let Ok((rhs, rest)) = product(body) {
            lemma_sum_tail_constant(binary(s[0], lhs, rhs), rest);
        }
    }
}

/// A sum without identifiers is constant.
proof fn lemma_sum_constant(s: Seq<TokenView>)
    requires
        no_identifier(s),
    ensures
        yields_constant(sum(s)),
    decreases s.len(), 6int,
{
    lemma_product_constant(s);
    lemma_product_advances(s);
    lemma_suffix_no_identifier(s, product(s));
    if let Ok((lhs, rest)) = product(s) {
        lemma_sum_tail_constant(lhs, rest);
    }
}

/// An expression without identifiers is constant.
proof fn lemma_expr_constant(s: Seq<TokenView>)
    requires
        no_identifier(s),
    ensures
        yields_constant(expr(s)),
    decreases s.len(), 7int,
{
    lemma_sum_constant(s);
}

/// An expression without identifiers has a tree without variables.
pub proof fn lemma_syntax_constant(s: Seq<TokenView>)
    requires
        no_identifier(s),
    ensures
        syntax(s) matches Ok(tree) ==> tree.constant(),
{
    lemma_expr_constant(s);
}

} // verus!
