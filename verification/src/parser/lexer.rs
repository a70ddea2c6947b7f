//! The lexer: one pass over the characters, left to right, no backtracking.

use vstd::prelude::*;
use crate::arith::{model, perform, well_behaved, Arithmetic, Operation, OperationView};
use crate::scalar::Scalar;
use super::grammar::no_identifier;
use super::token::{token_views, Token, TokenView};

verus! {

/// Why a source text has no tokens.
#[derive(Clone, Copy, Debug, PartialEq, Eq, Structural)]
pub enum LexError {
    /// A character that starts no token.
    UnexpectedChar(char),
    /// A number whose decimal point is not followed by a digit.
    MalformedNumber,
}

/// A decimal digit.
pub open spec fn is_digit(c: char) -> bool {
    '0' <= c <= '9'
}

/// A character of an identifier: an ASCII letter or an underscore.
pub open spec fn is_ident_char(c: char) -> bool {
    'a' <= c <= 'z' || 'A' <= c <= 'Z' || c == '_'
}

/// The length of the longest prefix of `s` all of whose characters satisfy
/// `p`.
pub open spec fn run(s: Seq<char>, p: spec_fn(char) -> bool) -> nat
    decreases s.len(),
{
    if s.len() > 0 && p(s[0]) {
        1 + run(s.drop_first(), p)
    } else {
        0
    }
}

/// A step of [`run`]: where the first character satisfies `p`, the run is
/// one longer than the run of what follows; and no run is longer than the
/// sequence.
pub proof fn lemma_run_step(s: Seq<char>, p: spec_fn(char) -> bool)
    ensures
        s.len() > 0 && p(s[0]) ==> run(s, p) == 1 + run(s.drop_first(), p),
        !(s.len() > 0 && p(s[0])) ==> run(s, p) == 0,
        run(s, p) <= s.len(),
    decreases s.len(),
{
    if s.len() > 0 && p(s[0]) {
        lemma_run_step(s.drop_first(), p);
    }
}

/// Where every character before position `n` of `s` satisfies `p` and the
/// one at `n`, if there is one, does not, `n` is the length of the run.
pub proof fn lemma_run_unique(s: Seq<char>, p: spec_fn(char) -> bool, n: int)
    requires
        0 <= n <= s.len(),
        forall|i: int| 0 <= i < n ==> p(#[trigger] s[i]),
        n < s.len() ==> !p(s[n]),
    ensures
        run(s, p) == n,
    decreases n,
{
    if n > 0 {
        let rest = s.drop_first();
        assert forall|i: int| 0 <= i < n - 1 implies p(#[trigger] rest[i]) by {
            assert(rest[i] == s[i + 1]);
        }
        lemma_run_unique(rest, p, n - 1);
    }
}

/// The token that a single character stands for, if it is one.
pub open spec fn punctuation(c: char) -> Option<TokenView> {
    if c == '+' {
        Some(TokenView::Plus)
    } else if c == '-' {
        Some(TokenView::Minus)
    } else if c == '*' {
        Some(TokenView::Star)
    } else if c == '/' {
        Some(TokenView::Slash)
    } else if c == '^' {
        Some(TokenView::Caret)
    } else if c == '(' {
        Some(TokenView::LParen)
    } else if c == ')' {
        Some(TokenView::RParen)
    } else if c == ',' {
        Some(TokenView::Comma)
    } else {
        None
    }
}

/// The number of characters of the numeric literal at the front of `s`: a
/// run of digits and, where a point follows it, the point and a second run
/// of digits, which may not be empty.
pub open spec fn literal_len(s: Seq<char>) -> Option<nat> {
    let whole = run(s, |c: char| is_digit(c));
    if whole < s.len() && s[whole as int] == '.' {
        let part = run(s.skip(whole + 1 as int), |c: char| is_digit(c));
        if part == 0 {
            None
        } else {
            Some(whole + 1 + part)
        }
    } else {
        Some(whole)
    }
}

/// A literal that starts with a digit has at least one character and ends
/// within the text.
pub proof fn lemma_literal_len(s: Seq<char>)
    requires
        s.len() > 0,
        is_digit(s[0]),
    ensures
        literal_len(s) matches Some(n) ==> 0 < n <= s.len(),
{
    let digit = |c: char| is_digit(c);
    lemma_run_step(s, digit);
    let whole = run(s, digit);
    if whole < s.len() {
        lemma_run_step(s.skip(whole + 1 as int), digit);
    }
}

/// `first` followed by the tokens of `rest`, if it has any.
pub open spec fn followed_by(
    first: Seq<TokenView>,
    rest: Result<Seq<TokenView>, LexError>,
) -> Result<Seq<TokenView>, LexError> {
    match rest {
        Ok(tokens) => Ok(first + tokens),
        Err(e) => Err(e),
    }
}

/// The tokens of a source text. Spaces separate tokens and yield none; a
/// number is as long as [`literal_len`] says and has the value that the
/// arithmetic gives its text; an identifier is the longest run of
/// identifier characters. The first character that starts no token, or the
/// first number without digits behind its point, makes the whole text an
/// error.
pub open spec fn lex(s: Seq<char>, arith: Arithmetic) -> Result<Seq<TokenView>, LexError>
    decreases s.len(),
{
    if s.len() == 0 {
        Ok(Seq::empty())
    } else if s[0] == ' ' {
        lex(s.drop_first(), arith)
    } else if punctuation(s[0]) is Some {
        followed_by(seq![punctuation(s[0])->0], lex(s.drop_first(), arith))
    } else if is_digit(s[0]) {
        match literal_len(s) {
            Some(n) => {
                proof {
                    lemma_literal_len(s);
                }
                let value = arith(OperationView::Literal(s.take(n as int)));
                followed_by(seq![TokenView::Number(value)], lex(s.skip(n as int), arith))
            },
            None => Err(LexError::MalformedNumber),
        }
    } else if is_ident_char(s[0]) {
        let n = run(s, |c: char| is_ident_char(c));
        proof {
            lemma_run_step(s, |c: char| is_ident_char(c));
        }
        followed_by(seq![TokenView::Ident(s.take(n as int))], lex(s.skip(n as int), arith))
    } else {
        Err(LexError::UnexpectedChar(s[0]))
    }
}

/// A text without identifier characters has no identifier among its
/// tokens.
pub proof fn lemma_lex_no_identifier(s: Seq<char>, arith: Arithmetic)
    requires
        forall|i: int| 0 <= i < s.len() ==> !is_ident_char(#[trigger] s[i]),
    ensures
        lex(s, arith) matches Ok(tokens) ==> no_identifier(tokens),
    decreases s.len(),
{
    if s.len() > 0 {
        let n: int = if s[0] == ' ' || punctuation(s[0]) is Some {
            1
        } else if is_digit(s[0]) {
            lemma_literal_len(s);
            match literal_len(s) {
                Some(n) => n as int,
                None => 1,
            }
        } else {
            1
        };
        let rest = s.skip(n);
        assert(s.drop_first() == s.skip(1));
        assert forall|i: int| 0 <= i < rest.len() implies !is_ident_char(#[trigger] rest[i]) by {
            assert(rest[i] == s[i + n]);
        }
        lemma_lex_no_identifier(rest, arith);
    }
}

/// A cursor over the characters of a source text: what is left to read can
/// be looked at and taken one character at a time.
pub struct CharIter {
    chars: Vec<char>,
    pos: usize,
}

impl View for CharIter {
    type V = Seq<char>;

    /// The characters not yet taken.
    closed spec fn view(&self) -> Seq<char> {
        self.chars@.skip(self.pos as int)
    }
}

impl CharIter {
    #[verifier::type_invariant]
    spec fn inv(self) -> bool {
        self.pos <= self.chars.len()
    }

    /// A cursor at the start of `input`.
    pub fn new(input: &str) -> (r: CharIter)
        ensures
            r@ == input@,
    {
        let mut chars: Vec<char> = Vec::new();
        for c in it: input.chars()
            invariant
                it.seq() == input@,
                chars@ == input@.take(it.index() as int),
        {
            chars.push(c);
            assert(chars@ == input@.take(it.index() + 1));
        }
        assert(chars@ == input@);
        CharIter { chars, pos: 0 }
    }

    /// The next character, if there is one. Nothing is taken.
    pub fn peek(&self) -> (r: Option<char>)
        ensures
            r == (if self@.len() > 0 {
                Some(self@[0])
            } else {
                None
            }),
    {
        proof {
            use_type_invariant(self);
        }
        if self.pos < self.chars.len() {
            Some(self.chars[self.pos])
        } else {
            None
        }
    }

    /// Takes the next character, if there is one.
    pub fn next(&mut self) -> (r: Option<char>)
        ensures
            match r {
                Some(c) => {
                    &&& old(self)@.len() > 0
                    &&& c == old(self)@[0]
                    &&& final(self)@ == old(self)@.drop_first()
                },
                None => old(self)@.len() == 0 && final(self)@ == old(self)@,
            },
    {
        proof {
            use_type_invariant(&*self);
        }
        if self.pos < self.chars.len() {
            let c = self.chars[self.pos];
            self.pos += 1;
            assert(self.chars@.skip(self.pos as int) == self.chars@.skip(
                self.pos - 1,
            ).drop_first());
            Some(c)
        } else {
            None
        }
    }
}

/// `String::push` of the standard library appends one character to the
/// string and leaves the characters before it as they were.
pub assume_specification[ String::push ](string: &mut String, ch: char)
    ensures
        final(string)@ == old(string)@.push(ch),
;

/// Moves characters from `chars` to the end of `string` for as long as `f`
/// accepts them. Every character moved was accepted by `f`, and the first
/// one left behind, if any is left, was refused.
pub fn parse_sequence_while<F: Fn(char) -> bool>(string: &mut String, chars: &mut CharIter, f: F)
    requires
        forall|c: char| f.requires((c,)),
    ensures
        ({
            let n = final(string)@.len() - old(string)@.len();
            &&& 0 <= n <= old(chars)@.len()
            &&& final(string)@ == old(string)@ + old(chars)@.take(n)
            &&& final(chars)@ == old(chars)@.skip(n)
            &&& forall|i: int| 0 <= i < n ==> f.ensures((#[trigger] old(chars)@[i],), true)
            &&& n < old(chars)@.len() ==> f.ensures((old(chars)@[n],), false)
        }),
{
    let ghost source = chars@;
    let ghost before = string@;
    let ghost mut taken: int = 0;
    proof {
        assert(source.skip(0) == source);
        assert(before + source.take(0) == before);
    }
    loop
        invariant
            forall|c: char| f.requires((c,)),
            0 <= taken <= source.len(),
            chars@ == source.skip(taken),
            string@ == before + source.take(taken),
            forall|i: int| 0 <= i < taken ==> f.ensures((#[trigger] source[i],), true),
        ensures
            0 <= taken <= source.len(),
            chars@ == source.skip(taken),
            string@ == before + source.take(taken),
            forall|i: int| 0 <= i < taken ==> f.ensures((#[trigger] source[i],), true),
            taken < source.len() ==> f.ensures((source[taken],), false),
        decreases source.len() - taken,
    {
        match chars.peek() {
            Some(c) => {
                if f(c) {
                    string.push(c);
                    chars.next();
                    proof {
                        assert(source.skip(taken).drop_first() == source.skip(taken + 1));
                        assert(source.take(taken).push(c) == source.take(taken + 1));
                        assert((before + source.take(taken)).push(c) == before + source.take(
                            taken,
                        ).push(c));
                        taken = taken + 1;
                    }
                } else {
                    break ;
                }
            },
            None => {
                break ;
            },
        }
    }
}

/// Moves the digits at the front of `chars` to the end of `string`.
pub fn parse_digits(string: &mut String, chars: &mut CharIter)
    ensures
        ({
            let n = run(old(chars)@, |c: char| is_digit(c)) as int;
            &&& final(string)@ == old(string)@ + old(chars)@.take(n)
            &&& final(chars)@ == old(chars)@.skip(n)
        }),
{
    let ghost source = chars@;
    let ghost before = string@;
    let digit = |c: char| -> (b: bool)
        ensures
            b == is_digit(c),
        { '0' <= c && c <= '9' };
    parse_sequence_while(string, chars, digit);
    proof {
        lemma_run_unique(source, |c: char| is_digit(c), string@.len() - before.len());
    }
}

/// Moves the identifier characters at the front of `chars` to the end of
/// `string`.
pub fn parse_ident(string: &mut String, chars: &mut CharIter)
    ensures
        ({
            let n = run(old(chars)@, |c: char| is_ident_char(c)) as int;
            &&& final(string)@ == old(string)@ + old(chars)@.take(n)
            &&& final(chars)@ == old(chars)@.skip(n)
        }),
{
    let ghost source = chars@;
    let ghost before = string@;
    let ident = |c: char| -> (b: bool)
        ensures
            b == is_ident_char(c),
        { ('a' <= c && c <= 'z') || ('A' <= c && c <= 'Z') || c == '_' };
    parse_sequence_while(string, chars, ident);
    proof {
        lemma_run_unique(source, |c: char| is_ident_char(c), string@.len() - before.len());
    }
}

/// The token of an identifier. No identifier is a keyword.
pub fn match_keyword(string: String) -> (r: Token)
    ensures
        r == Token::Ident(string),
{
    Token::Ident(string)
}

/// The token that a punctuation character stands for, if it is one.
fn punctuation_token(c: char) -> (r: Option<Token>)
    ensures
        match punctuation(c) {
            Some(view) => r matches Some(token) && token@ == view,
            None => r is None,
        },
{
    if c == '+' {
        Some(Token::Plus)
    } else if c == '-' {
        Some(Token::Minus)
    } else if c == '*' {
        Some(Token::Star)
    } else if c == '/' {
        Some(Token::Slash)
    } else if c == '^' {
        Some(Token::Caret)
    } else if c == '(' {
        Some(Token::LParen)
    } else if c == ')' {
        Some(Token::RParen)
    } else if c == ',' {
        Some(Token::Comma)
    } else {
        None
    }
}

/// Reads the numeric literal at the front of `chars`, which starts with a
/// digit, and asks the kernel for its value.
fn read_number<K: Fn(Operation) -> Scalar>(chars: &mut CharIter, kernel: &K) -> (r: Result<
    Token,
    LexError,
>)
    requires
        well_behaved(kernel),
        old(chars)@.len() > 0,
        is_digit(old(chars)@[0]),
    ensures
        match literal_len(old(chars)@) {
            Some(n) => {
                &&& r == Ok::<Token, LexError>(
                    Token::Number(
                        model(kernel)(OperationView::Literal(old(chars)@.take(n as int))),
                    ),
                )
                &&& final(chars)@ == old(chars)@.skip(n as int)
            },
            None => r == Err::<Token, LexError>(LexError::MalformedNumber),
        },
{
    let ghost s = chars@;
    let ghost digit = |c: char| is_digit(c);
    let ghost whole = run(s, digit) as int;
    proof {
        lemma_run_step(s, digit);
    }
    let mut num_str = String::new();
    parse_digits(&mut num_str, chars);
    assert(num_str@ == s.take(whole)) by {
        assert(Seq::<char>::empty() + s.take(whole) == s.take(whole));
    }
    let point = match chars.peek() {
        Some(c) => c == '.',
        None => false,
    };
    if point {
        chars.next();
        num_str.push('.');
        let ghost tail = s.skip(whole + 1);
        proof {
            assert(chars@ == tail) by {
                assert(s.skip(whole).drop_first() == s.skip(whole + 1));
            }
            assert(num_str@ == s.take(whole + 1)) by {
                assert(s.take(whole).push('.') == s.take(whole + 1));
            }
            lemma_run_step(tail, digit);
        }
        let digit_follows = match chars.peek() {
            Some(c) => '0' <= c && c <= '9',
            None => false,
        };
        if !digit_follows {
            return Err(LexError::MalformedNumber);
        }
        parse_digits(&mut num_str, chars);
        proof {
            let part = run(tail, digit) as int;
            assert(num_str@ == s.take(whole + 1 + part)) by {
                assert(s.take(whole + 1) + tail.take(part) == s.take(whole + 1 + part));
            }
            assert(chars@ == s.skip(whole + 1 + part)) by {
                assert(tail.skip(part) == s.skip(whole + 1 + part));
            }
        }
    }
    let value = perform(kernel, Operation::Literal(num_str));
    Ok(Token::Number(value))
}

/// Reads the identifier at the front of `chars`, which starts with an
/// identifier character.
fn read_ident(chars: &mut CharIter) -> (r: Token)
    requires
        old(chars)@.len() > 0,
        is_ident_char(old(chars)@[0]),
    ensures
        ({
            let n = run(old(chars)@, |c: char| is_ident_char(c)) as int;
            &&& r@ == TokenView::Ident(old(chars)@.take(n))
            &&& final(chars)@ == old(chars)@.skip(n)
        }),
{
    let ghost s = chars@;
    let mut ident_str = String::new();
    parse_ident(&mut ident_str, chars);
    assert(ident_str@ == s.take(run(s, |c: char| is_ident_char(c)) as int)) by {
        let n = run(s, |c: char| is_ident_char(c)) as int;
        assert(Seq::<char>::empty() + s.take(n) == s.take(n));
    }
    match_keyword(ident_str)
}

/// Turns a source text into its tokens, in order: `Ok` with the tokens that
/// [`lex`] gives, or the error that it gives.
pub fn tokenize<K: Fn(Operation) -> Scalar>(input: &str, kernel: &K) -> (r: Result<
    Vec<Token>,
    LexError,
>)
    requires
        well_behaved(kernel),
    ensures
        match lex(input@, model(kernel)) {
            Ok(views) => r matches Ok(tokens) && token_views(tokens@) == views,
            Err(e) => r matches Err(err) && err == e,
        },
{
    let ghost arith = model(kernel);
    let mut tokens: Vec<Token> = Vec::new();
    let mut chars = CharIter::new(input);
    proof {
        assert(token_views(tokens@) == Seq::<TokenView>::empty());
        assert(followed_by(Seq::<TokenView>::empty(), lex(input@, arith)) == lex(input@, arith)) by {
            if let Ok(rest) = lex(input@, arith) {
                assert(Seq::<TokenView>::empty() + rest == rest);
            }
        }
    }
    loop
        invariant
            well_behaved(kernel),
            arith == model(kernel),
            lex(input@, arith) == followed_by(token_views(tokens@), lex(chars@, arith)),
        ensures
            lex(input@, arith) == Ok::<Seq<TokenView>, LexError>(token_views(tokens@)),
        decreases chars@.len(),
    {
        let ghost s = chars@;
        let ghost done = token_views(tokens@);
        let c = match chars.peek() {
            Some(c) => c,
            None => {
                assert(done + Seq::<TokenView>::empty() == done);
                break ;
            },
        };
        let token = if c == ' ' {
            chars.next();
            None
        } else if let Some(token) = punctuation_token(c) {
            chars.next();
            Some(token)
        } else if '0' <= c && c <= '9' {
            proof {
                lemma_literal_len(s);
            }
            Some(read_number(&mut chars, kernel)?)
        } else if ('a' <= c && c <= 'z') || ('A' <= c && c <= 'Z') || c == '_' {
            proof {
                lemma_run_step(s, |c: char| is_ident_char(c));
            }
            Some(read_ident(&mut chars))
        } else {
            return Err(LexError::UnexpectedChar(c));
        };
        if let Some(token) = token {
            let ghost view = token@;
            tokens.push(token);
            proof {
                assert(token_views(tokens@) == done.push(view));
                assert(lex(s, arith) == followed_by(seq![view], lex(chars@, arith)));
                if let Ok(rest) = lex(chars@, arith) {
                    assert(done + (seq![view] + rest) == done.push(view) + rest);
                }
            }
        }
    }
    Ok(tokens)
}

} // verus!
