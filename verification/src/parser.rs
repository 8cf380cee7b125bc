//! The lexer and parser: source text becomes a token list, and the token
//! list becomes an expression tree by precedence climbing. Additions and
//! multiplications fold to the left, a run of leading minus signs folds to
//! the right into nested negations.
//!
//! Both stages are pinned down by spec functions: `tokenize_from` fixes the
//! token list (and the lexical error) for every input, and `parse_sum` fixes
//! the tree that a token list parses to.

use vstd::prelude::*;
use vstd::string::StrSliceExecFns;
use crate::semantics::{digits_value, is_digit_char, lemma_digits_value_nonneg,
    lemma_digits_value_prefix};
use crate::types::{Expr, ExprV, LpErr, Operator, ParseError};

verus! {

/// One token of the surface language.
#[derive(Debug, Clone, PartialEq, Eq)]
pub enum Token {
    Int(i32),
    Ident(String),
    Plus,
    Minus,
    Star,
    Slash,
    LParen,
    RParen,
}

/// The mathematical view of a token.
pub enum TokV {
    Int(i32),
    Ident(Seq<char>),
    Plus,
    Minus,
    Star,
    Slash,
    LParen,
    RParen,
}

impl Token {
    /// The mathematical value of this token.
    pub open spec fn model(&self) -> TokV {
        match self {
            Token::Int(n) => TokV::Int(*n),
            Token::Ident(s) => TokV::Ident(s@),
            Token::Plus => TokV::Plus,
            Token::Minus => TokV::Minus,
            Token::Star => TokV::Star,
            Token::Slash => TokV::Slash,
            Token::LParen => TokV::LParen,
            Token::RParen => TokV::RParen,
        }
    }
}

/// The view of a whole token list.
pub open spec fn toks_model(toks: Seq<Token>) -> Seq<TokV> {
    toks.map(|i: int, t: Token| t.model())
}

/// Whether a character is blank space between tokens.
pub open spec fn is_space_char(c: char) -> bool {
    c == ' ' || c == '\t' || c == '\n' || c == '\r'
}

/// Whether a character can start an identifier.
pub open spec fn is_ident_start_char(c: char) -> bool {
    (97 <= c as u32 <= 122) || (65 <= c as u32 <= 90) || c == '_'
}

/// Whether a character can continue an identifier.
pub open spec fn is_ident_char(c: char) -> bool {
    is_ident_start_char(c) || is_digit_char(c)
}

/// The first position at or after `i` that does not continue a run of
/// digits.
pub open spec fn digits_end(s: Seq<char>, i: int) -> int
    decreases s.len() - i when 0 <= i <= s.len()
{
    if i >= s.len() || !is_digit_char(s[i]) {
        i
    } else {
        digits_end(s, i + 1)
    }
}

/// The first position at or after `i` that does not continue an identifier.
pub open spec fn ident_end(s: Seq<char>, i: int) -> int
    decreases s.len() - i when 0 <= i <= s.len()
{
    if i >= s.len() || !is_ident_char(s[i]) {
        i
    } else {
        ident_end(s, i + 1)
    }
}

proof fn lemma_digits_end_bounds(s: Seq<char>, i: int)
    requires
        0 <= i <= s.len(),
    ensures
        i <= digits_end(s, i) <= s.len(),
        forall|k: int| i <= k < digits_end(s, i) ==> is_digit_char(#[trigger] s[k]),
        digits_end(s, i) < s.len() ==> !is_digit_char(s[digits_end(s, i)]),
    decreases s.len() - i,
{
    if i < s.len() && is_digit_char(s[i]) {
        lemma_digits_end_bounds(s, i + 1);
    }
}

proof fn lemma_ident_end_bounds(s: Seq<char>, i: int)
    requires
        0 <= i <= s.len(),
    ensures
        i <= ident_end(s, i) <= s.len(),
        forall|k: int| i <= k < ident_end(s, i) ==> is_ident_char(#[trigger] s[k]),
        ident_end(s, i) < s.len() ==> !is_ident_char(s[ident_end(s, i)]),
    decreases s.len() - i,
{
    if i < s.len() && is_ident_char(s[i]) {
        lemma_ident_end_bounds(s, i + 1);
    }
}

/// Puts a token in front of the outcome of tokenizing the rest.
pub open spec fn cons_tok(t: TokV, rest: Result<Seq<TokV>, ParseError>) -> Result<
    Seq<TokV>,
    ParseError,
> {
    match rest {
        Ok(ts) => Ok(seq![t] + ts),
        Err(e) => Err(e),
    }
}

/// The token list of the input from position `i` on: blank space is
/// skipped; parentheses and operator symbols are single-character tokens; a
/// run of digits is an integer literal, rejected when it has a leading zero
/// or overflows 32 bits; an identifier is a letter or underscore followed
/// by letters, digits and underscores. Any other character is rejected.
pub open spec fn tokenize_from(s: Seq<char>, i: int) -> Result<Seq<TokV>, ParseError>
    decreases s.len() - i when 0 <= i <= s.len() via tokenize_from_decreases
{
    if i >= s.len() {
        Ok(Seq::empty())
    } else {
        let c = s[i];
        if is_space_char(c) {
            tokenize_from(s, i + 1)
        } else if c == '(' {
            cons_tok(TokV::LParen, tokenize_from(s, i + 1))
        } else if c == ')' {
            cons_tok(TokV::RParen, tokenize_from(s, i + 1))
        } else if c == '+' {
            cons_tok(TokV::Plus, tokenize_from(s, i + 1))
        } else if c == '-' {
            cons_tok(TokV::Minus, tokenize_from(s, i + 1))
        } else if c == '*' {
            cons_tok(TokV::Star, tokenize_from(s, i + 1))
        } else if c == '/' {
            cons_tok(TokV::Slash, tokenize_from(s, i + 1))
        } else if is_digit_char(c) {
            let j = digits_end(s, i);
            if c == '0' && j > i + 1 {
                Err(ParseError::LeadingZero(i as usize))
            } else if digits_value(s.subrange(i, j)) > 0x7fff_ffff {
                Err(ParseError::LiteralOverflow(i as usize))
            } else {
                cons_tok(TokV::Int(digits_value(s.subrange(i, j)) as i32), tokenize_from(s, j))
            }
        } else if is_ident_start_char(c) {
            let j = ident_end(s, i);
            cons_tok(TokV::Ident(s.subrange(i, j)), tokenize_from(s, j))
        } else {
            Err(ParseError::UnexpectedChar(i as usize))
        }
    }
}

#[via_fn]
proof fn tokenize_from_decreases(s: Seq<char>, i: int) {
    if 0 <= i && i < s.len() {
        if is_digit_char(s[i]) {
            lemma_digits_end_bounds(s, i + 1);
        }
        if is_ident_start_char(s[i]) {
            lemma_ident_end_bounds(s, i + 1);
        }
    }
}

/// Turns source text into tokens.
#[verifier::loop_isolation(false)]
pub fn tokenize(s: &str) -> (r: Result<Vec<Token>, LpErr>)
    ensures
        match r {
            Ok(toks) => tokenize_from(s@, 0) == Ok::<Seq<TokV>, ParseError>(toks_model(toks@)),
            Err(e) => (e matches LpErr::Parse(pe) && tokenize_from(s@, 0) == Err::<
                Seq<TokV>,
                ParseError,
            >(pe)),
        },
{
    let n = s.unicode_len();
    let mut tokens: Vec<Token> = Vec::new();
    let mut i: usize = 0;
    while i < n
        invariant
            n == s@.len(),
            i <= n,
            tokenize_from(s@, 0) == cons_all(toks_model(tokens@), tokenize_from(s@, i as int)),
        decreases n - i,
    {
        let c = s.get_char(i);
        let d = c as u32;
        let ghost toks0 = toks_model(tokens@);
        if c == ' ' || c == '\t' || c == '\n' || c == '\r' {
            i = i + 1;
        } else if c == '(' {
            tokens.push(Token::LParen);
            proof {
                lemma_cons_all_push(toks0, TokV::LParen, tokenize_from(s@, i + 1));
                assert(toks_model(tokens@) =~= toks0.push(TokV::LParen));
            }
            i = i + 1;
        } else if c == ')' {
            tokens.push(Token::RParen);
            proof {
                lemma_cons_all_push(toks0, TokV::RParen, tokenize_from(s@, i + 1));
                assert(toks_model(tokens@) =~= toks0.push(TokV::RParen));
            }
            i = i + 1;
        } else if c == '+' {
            tokens.push(Token::Plus);
            proof {
                lemma_cons_all_push(toks0, TokV::Plus, tokenize_from(s@, i + 1));
                assert(toks_model(tokens@) =~= toks0.push(TokV::Plus));
            }
            i = i + 1;
        } else if c == '-' {
            tokens.push(Token::Minus);
            proof {
                lemma_cons_all_push(toks0, TokV::Minus, tokenize_from(s@, i + 1));
                assert(toks_model(tokens@) =~= toks0.push(TokV::Minus));
            }
            i = i + 1;
        } else if c == '*' {
            tokens.push(Token::Star);
            proof {
                lemma_cons_all_push(toks0, TokV::Star, tokenize_from(s@, i + 1));
                assert(toks_model(tokens@) =~= toks0.push(TokV::Star));
            }
            i = i + 1;
        } else if c == '/' {
            tokens.push(Token::Slash);
            proof {
                lemma_cons_all_push(toks0, TokV::Slash, tokenize_from(s@, i + 1));
                assert(toks_model(tokens@) =~= toks0.push(TokV::Slash));
            }
            i = i + 1;
        } else if 48 <= d && d <= 57 {
            let start = i;
            let mut j: usize = i;
            let mut stop = false;
            proof {
                lemma_digits_end_bounds(s@, i as int);
                assert(is_digit_char(s@[i as int]));
            }
            while j < n && !stop
                invariant
                    n == s@.len(),
                    start <= j <= n,
                    start < n,
                    digits_end(s@, start as int) == digits_end(s@, j as int),
                    digits_end(s@, j as int) >= j,
                    stop ==> digits_end(s@, j as int) == j,
                    forall|k: int| start <= k < j ==> is_digit_char(#[trigger] s@[k]),
                decreases n - j, 1 - (if stop { 1int } else { 0int }),
            {
                let cj = s.get_char(j);
                let dj = cj as u32;
                if dj < 48 || dj > 57 {
                    proof {
                        assert(digits_end(s@, j as int) == j);
                    }
                    stop = true;
                } else {
                    proof {
                        assert(digits_end(s@, j as int) == digits_end(s@, j + 1));
                        lemma_digits_end_bounds(s@, j + 1);
                    }
                    j = j + 1;
                }
            }
            proof {
                if !stop {
                    assert(digits_end(s@, j as int) == j);
                }
                assert(digits_end(s@, start as int) == j);
                assert(j > start) by {
                    assert(is_digit_char(s@[start as int]));
                }
            }
            if c == '0' && j > start + 1 {
                return Err(LpErr::Parse(ParseError::LeadingZero(start)));
            }
            let mut acc: u64 = 0;
            let mut k: usize = start;
            while k < j
                invariant
                    n == s@.len(),
                    start <= k <= j <= n,
                    forall|q: int| start <= q < j ==> is_digit_char(#[trigger] s@[q]),
                    acc == digits_value(s@.subrange(start as int, k as int)),
                    acc <= 0x7fff_ffff,
                decreases j - k,
            {
                let ck = s.get_char(k);
                let dk = ck as u32;
                proof {
                    assert(is_digit_char(s@[k as int]));
                    assert(s@.subrange(start as int, k + 1).drop_last() =~= s@.subrange(
                        start as int,
                        k as int,
                    ));
                    assert(s@.subrange(start as int, k + 1).last() == s@[k as int]);
                }
                let next = acc * 10 + ((dk - 48) as u64);
                if next > 0x7fff_ffff {
                    proof {
                        lemma_digits_prefix_overflow(s@, start as int, k + 1, j as int);
                    }
                    return Err(LpErr::Parse(ParseError::LiteralOverflow(start)));
                }
                acc = next;
                k = k + 1;
            }
            proof {
                assert(s@.subrange(start as int, j as int) == s@.subrange(
                    start as int,
                    k as int,
                ));
            }
            let value: i32 = acc as i32;
            tokens.push(Token::Int(value));
            proof {
                lemma_cons_all_push(toks0, TokV::Int(value), tokenize_from(s@, j as int));
                assert(toks_model(tokens@) =~= toks0.push(TokV::Int(value)));
            }
            i = j;
        } else if (97 <= d && d <= 122) || (65 <= d && d <= 90) || c == '_' {
            let start = i;
            let mut j: usize = i;
            let mut stop = false;
            proof {
                lemma_ident_end_bounds(s@, i as int);
                assert(is_ident_start_char(s@[i as int]));
            }
            while j < n && !stop
                invariant
                    n == s@.len(),
                    start <= j <= n,
                    start < n,
                    ident_end(s@, start as int) == ident_end(s@, j as int),
                    ident_end(s@, j as int) >= j,
                    stop ==> ident_end(s@, j as int) == j,
                decreases n - j, 1 - (if stop { 1int } else { 0int }),
            {
                let cj = s.get_char(j);
                let dj = cj as u32;
                let cont = (97 <= dj && dj <= 122) || (65 <= dj && dj <= 90) || (48 <= dj && dj
                    <= 57) || cj == '_';
                if !cont {
                    proof {
                        assert(ident_end(s@, j as int) == j);
                    }
                    stop = true;
                } else {
                    proof {
                        assert(ident_end(s@, j as int) == ident_end(s@, j + 1));
                        lemma_ident_end_bounds(s@, j + 1);
                    }
                    j = j + 1;
                }
            }
            proof {
                if !stop {
                    assert(ident_end(s@, j as int) == j);
                }
                assert(ident_end(s@, start as int) == j);
                assert(j > start) by {
                    assert(is_ident_char(s@[start as int]));
                }
            }
            let name = s.substring_char(start, j).to_owned();
            tokens.push(Token::Ident(name));
            proof {
                lemma_cons_all_push(
                    toks0,
                    TokV::Ident(s@.subrange(start as int, j as int)),
                    tokenize_from(s@, j as int),
                );
                assert(toks_model(tokens@) =~= toks0.push(
                    TokV::Ident(s@.subrange(start as int, j as int)),
                ));
            }
            i = j;
        } else {
            return Err(LpErr::Parse(ParseError::UnexpectedChar(i)));
        }
    }
    proof {
        assert(tokenize_from(s@, n as int) == Ok::<Seq<TokV>, ParseError>(Seq::empty()));
        assert(toks_model(tokens@) + Seq::<TokV>::empty() =~= toks_model(tokens@));
    }
    Ok(tokens)
}

/// Puts an already-built token list in front of the outcome of tokenizing
/// the rest.
pub open spec fn cons_all(ts: Seq<TokV>, rest: Result<Seq<TokV>, ParseError>) -> Result<
    Seq<TokV>,
    ParseError,
> {
    match rest {
        Ok(more) => Ok(ts + more),
        Err(e) => Err(e),
    }
}

proof fn lemma_cons_all_push(ts: Seq<TokV>, t: TokV, rest: Result<Seq<TokV>, ParseError>)
    ensures
        cons_all(ts, cons_tok(t, rest)) == cons_all(ts.push(t), rest),
{
    match rest {
        Ok(more) => {
            assert(ts + (seq![t] + more) =~= ts.push(t) + more);
        },
        Err(_) => {},
    }
}

proof fn lemma_digits_prefix_overflow(s: Seq<char>, start: int, j: int, e: int)
    requires
        0 <= start <= j <= e <= s.len(),
        forall|k: int| start <= k < e ==> is_digit_char(#[trigger] s[k]),
        digits_value(s.subrange(start, j)) > 0x7fff_ffff,
    ensures
        digits_value(s.subrange(start, e)) > 0x7fff_ffff,
{
    let whole = s.subrange(start, e);
    let pre = s.subrange(start, j);
    assert(whole.take(j - start) =~= pre);
    lemma_digits_value_prefix(whole, j - start);
}

/// What parsing an atom yields: an integer literal, an identifier, or a
/// parenthesized expression, together with the tokens left over. The guards
/// comparing lengths only discharge the termination check; a successful
/// sub-parse always consumes at least one token, so they always hold.
pub open spec fn parse_atom_model(toks: Seq<TokV>) -> Option<(ExprV, Seq<TokV>)>
    decreases toks.len(), 0int,
{
    if toks.len() == 0 {
        None
    } else {
        match toks[0] {
            TokV::Int(n) => Some((ExprV::Num(n), toks.drop_first())),
            TokV::Ident(name) => Some((ExprV::Var(name), toks.drop_first())),
            TokV::LParen => match parse_sum_model(toks.drop_first()) {
                None => None,
                Some((e, rest)) => {
                    if rest.len() > 0 && rest[0] is RParen {
                        Some((e, rest.drop_first()))
                    } else {
                        None
                    }
                },
            },
            _ => None,
        }
    }
}

/// A run of leading minus signs folds right-associatively into nested
/// negations of the atom behind it.
pub open spec fn parse_unary_model(toks: Seq<TokV>) -> Option<(ExprV, Seq<TokV>)>
    decreases toks.len(), 1int,
{
    if toks.len() > 0 && toks[0] is Minus {
        match parse_unary_model(toks.drop_first()) {
            None => None,
            Some((e, rest)) => Some((ExprV::UnaryOp(Operator::Sub, Box::new(e)), rest)),
        }
    } else {
        parse_atom_model(toks)
    }
}

/// A product: one unary expression, then any number of `*` or `/` steps,
/// folded to the left.
pub open spec fn parse_product_model(toks: Seq<TokV>) -> Option<(ExprV, Seq<TokV>)>
    decreases toks.len(), 2int,
{
    match parse_unary_model(toks) {
        None => None,
        Some((e, rest)) => {
            if rest.len() < toks.len() {
                parse_product_rest_model(e, rest)
            } else {
                None
            }
        },
    }
}

/// The left fold of the `*` and `/` steps behind a first operand.
pub open spec fn parse_product_rest_model(acc: ExprV, toks: Seq<TokV>) -> Option<
    (ExprV, Seq<TokV>),
>
    decreases toks.len(), 3int,
{
    if toks.len() > 0 && (toks[0] is Star || toks[0] is Slash) {
        let op = if toks[0] is Star {
            Operator::Mul
        } else {
            Operator::Div
        };
        match parse_unary_model(toks.drop_first()) {
            None => None,
            Some((e, rest)) => {
                let acc2 = ExprV::BinaryOp(Box::new(acc), op, Box::new(e));
                if rest.len() < toks.len() {
                    parse_product_rest_model(acc2, rest)
                } else {
                    None
                }
            },
        }
    } else {
        Some((acc, toks))
    }
}

/// A sum: one product, then any number of `+` or `-` steps, folded to the
/// left.
pub open spec fn parse_sum_model(toks: Seq<TokV>) -> Option<(ExprV, Seq<TokV>)>
    decreases toks.len(), 4int,
{
    match parse_product_model(toks) {
        None => None,
        Some((e, rest)) => {
            if rest.len() < toks.len() {
                parse_sum_rest_model(e, rest)
            } else {
                None
            }
        },
    }
}

/// The left fold of the `+` and `-` steps behind a first operand.
pub open spec fn parse_sum_rest_model(acc: ExprV, toks: Seq<TokV>) -> Option<(ExprV, Seq<TokV>)>
    decreases toks.len(), 5int,
{
    if toks.len() > 0 && (toks[0] is Plus || toks[0] is Minus) {
        let op = if toks[0] is Plus {
            Operator::Add
        } else {
            Operator::Sub
        };
        match parse_product_model(toks.drop_first()) {
            None => None,
            Some((e, rest)) => {
                let acc2 = ExprV::BinaryOp(Box::new(acc), op, Box::new(e));
                if rest.len() < toks.len() {
                    parse_sum_rest_model(acc2, rest)
                } else {
                    None
                }
            },
        }
    } else {
        Some((acc, toks))
    }
}

/// What a whole token list parses to: one sum with nothing left over.
pub open spec fn parse_model(toks: Seq<TokV>) -> Option<ExprV> {
    match parse_sum_model(toks) {
        None => None,
        Some((e, rest)) => {
            if rest.len() == 0 {
                Some(e)
            } else {
                None
            }
        },
    }
}

/// What a whole source text parses to, when it parses at all.
pub open spec fn run_parser_model(s: Seq<char>) -> Option<ExprV> {
    match tokenize_from(s, 0) {
        Err(_) => None,
        Ok(ts) => parse_model(ts),
    }
}

/// The tokens still to parse, from a position on.
pub open spec fn toks_suffix(toks: Seq<Token>, pos: int) -> Seq<TokV> {
    toks_model(toks).skip(pos)
}

/// Parses one atom starting at `pos`.
fn parse_atom(toks: &Vec<Token>, pos: usize) -> (r: Result<(Expr, usize), LpErr>)
    requires
        pos <= toks@.len(),
    ensures
        match r {
            Ok((e, np)) => pos < np <= toks@.len() && parse_atom_model(toks_suffix(toks@, pos as int))
                == Some((e.model(), toks_suffix(toks@, np as int))),
            Err(err) => parse_atom_model(toks_suffix(toks@, pos as int)) is None && err is Parse,
        },
    decreases toks@.len() - pos, 0int,
{
    let ghost suf = toks_suffix(toks@, pos as int);
    if pos >= toks.len() {
        return Err(LpErr::Parse(ParseError::ExpectedOperand(pos)));
    }
    proof {
        assert(suf[0] == toks@[pos as int].model());
        assert(suf.drop_first() =~= toks_suffix(toks@, pos as int + 1));
    }
    match &toks[pos] {
        Token::Int(n) => Ok((Expr::Num(*n), pos + 1)),
        Token::Ident(name) => Ok((Expr::Var(name.clone()), pos + 1)),
        Token::LParen => {
            let (e, np) = match parse_sum(toks, pos + 1) {
                Ok(res) => res,
                Err(err) => {
                    return Err(err);
                },
            };
            let ghost rest = toks_suffix(toks@, np as int);
            if np < toks.len() && matches!(&toks[np], Token::RParen) {
                proof {
                    assert(rest[0] == toks@[np as int].model());
                    assert(rest.drop_first() =~= toks_suffix(toks@, np as int + 1));
                }
                Ok((e, np + 1))
            } else {
                proof {
                    if np < toks@.len() {
                        assert(rest[0] == toks@[np as int].model());
                    }
                }
                Err(LpErr::Parse(ParseError::UnbalancedParen(np)))
            }
        },
        _ => Err(LpErr::Parse(ParseError::ExpectedOperand(pos))),
    }
}

/// Parses a run of leading minus signs and the atom behind it.
fn parse_unary(toks: &Vec<Token>, pos: usize) -> (r: Result<(Expr, usize), LpErr>)
    requires
        pos <= toks@.len(),
    ensures
        match r {
            Ok((e, np)) => pos < np <= toks@.len() && parse_unary_model(
                toks_suffix(toks@, pos as int),
            ) == Some((e.model(), toks_suffix(toks@, np as int))),
            Err(err) => parse_unary_model(toks_suffix(toks@, pos as int)) is None && err is Parse,
        },
    decreases toks@.len() - pos, 1int,
{
    let ghost suf = toks_suffix(toks@, pos as int);
    if pos < toks.len() && matches!(&toks[pos], Token::Minus) {
        proof {
            assert(suf[0] == toks@[pos as int].model());
            assert(suf.drop_first() =~= toks_suffix(toks@, pos as int + 1));
        }
        let (e, np) = match parse_unary(toks, pos + 1) {
            Ok(res) => res,
            Err(err) => {
                return Err(err);
            },
        };
        Ok((Expr::UnaryOp(Operator::Sub, Box::new(e)), np))
    } else {
        proof {
            if pos < toks@.len() {
                assert(suf[0] == toks@[pos as int].model());
            }
        }
        parse_atom(toks, pos)
    }
}

/// Parses a product starting at `pos`: a unary expression and the `*`/`/`
/// steps behind it, folded to the left.
fn parse_product(toks: &Vec<Token>, pos: usize) -> (r: Result<(Expr, usize), LpErr>)
    requires
        pos <= toks@.len(),
    ensures
        match r {
            Ok((e, np)) => pos < np <= toks@.len() && parse_product_model(
                toks_suffix(toks@, pos as int),
            ) == Some((e.model(), toks_suffix(toks@, np as int))),
            Err(err) => parse_product_model(toks_suffix(toks@, pos as int)) is None && err
                is Parse,
        },
    decreases toks@.len() - pos, 2int,
{
    let ghost suf = toks_suffix(toks@, pos as int);
    let (first, first_np) = match parse_unary(toks, pos) {
        Ok(res) => res,
        Err(err) => {
            return Err(err);
        },
    };
    let mut acc = first;
    let mut cur = first_np;
    let ghost goal = parse_product_model(suf);
    proof {
        assert(toks_suffix(toks@, first_np as int).len() < suf.len());
        assert(goal == parse_product_rest_model(acc.model(), toks_suffix(toks@, cur as int)));
    }
    loop
        invariant
            pos < cur <= toks@.len(),
            goal == parse_product_rest_model(acc.model(), toks_suffix(toks@, cur as int)),
            goal == parse_product_model(suf),
            suf == toks_suffix(toks@, pos as int),
        decreases toks@.len() - cur,
    {
        let ghost cur_suf = toks_suffix(toks@, cur as int);
        let step: Option<Operator> = if cur < toks.len() {
            proof {
                assert(cur_suf[0] == toks@[cur as int].model());
            }
            match &toks[cur] {
                Token::Star => Some(Operator::Mul),
                Token::Slash => Some(Operator::Div),
                _ => None,
            }
        } else {
            None
        };
        let op = match step {
            Some(op) => op,
            None => {
                return Ok((acc, cur));
            },
        };
        proof {
            assert(cur_suf.drop_first() =~= toks_suffix(toks@, cur as int + 1));
        }
        let (e, np) = match parse_unary(toks, cur + 1) {
            Ok(res) => res,
            Err(err) => {
                return Err(err);
            },
        };
        acc = Expr::BinaryOp(Box::new(acc), op, Box::new(e));
        cur = np;
    }
}

/// Parses a sum starting at `pos`: a product and the `+`/`-` steps behind
/// it, folded to the left.
fn parse_sum(toks: &Vec<Token>, pos: usize) -> (r: Result<(Expr, usize), LpErr>)
    requires
        pos <= toks@.len(),
    ensures
        match r {
            Ok((e, np)) => pos < np <= toks@.len() && parse_sum_model(
                toks_suffix(toks@, pos as int),
            ) == Some((e.model(), toks_suffix(toks@, np as int))),
            Err(err) => parse_sum_model(toks_suffix(toks@, pos as int)) is None && err is Parse,
        },
    decreases toks@.len() - pos, 3int,
{
    let ghost suf = toks_suffix(toks@, pos as int);
    let (first, first_np) = match parse_product(toks, pos) {
        Ok(res) => res,
        Err(err) => {
            return Err(err);
        },
    };
    let mut acc = first;
    let mut cur = first_np;
    let ghost goal = parse_sum_model(suf);
    proof {
        assert(toks_suffix(toks@, first_np as int).len() < suf.len());
        assert(goal == parse_sum_rest_model(acc.model(), toks_suffix(toks@, cur as int)));
    }
    loop
        invariant
            pos < cur <= toks@.len(),
            goal == parse_sum_rest_model(acc.model(), toks_suffix(toks@, cur as int)),
            goal == parse_sum_model(suf),
            suf == toks_suffix(toks@, pos as int),
        decreases toks@.len() - cur,
    {
        let ghost cur_suf = toks_suffix(toks@, cur as int);
        let step: Option<Operator> = if cur < toks.len() {
            proof {
                assert(cur_suf[0] == toks@[cur as int].model());
            }
            match &toks[cur] {
                Token::Plus => Some(Operator::Add),
                Token::Minus => Some(Operator::Sub),
                _ => None,
            }
        } else {
            None
        };
        let op = match step {
            Some(op) => op,
            None => {
                return Ok((acc, cur));
            },
        };
        proof {
            assert(cur_suf.drop_first() =~= toks_suffix(toks@, cur as int + 1));
        }
        let (e, np) = match parse_product(toks, cur + 1) {
            Ok(res) => res,
            Err(err) => {
                return Err(err);
            },
        };
        acc = Expr::BinaryOp(Box::new(acc), op, Box::new(e));
        cur = np;
    }
}

/// Parses source text into an expression tree, or reports why it is
/// malformed.
pub fn run_parser(input: &str) -> (r: Result<Expr, LpErr>)
    ensures
        match r {
            Ok(e) => run_parser_model(input@) == Some(e.model()),
            Err(err) => run_parser_model(input@) is None && err is Parse && (tokenize_from(
                input@,
                0,
            ) matches Err(pe) ==> err == LpErr::Parse(pe)),
        },
{
    let tokens = match tokenize(input) {
        Ok(ts) => ts,
        Err(err) => {
            return Err(err);
        },
    };
    let (expr, np) = match parse_sum(&tokens, 0) {
        Ok(res) => res,
        Err(err) => {
            proof {
                assert(toks_suffix(tokens@, 0) =~= toks_model(tokens@));
            }
            return Err(err);
        },
    };
    proof {
        assert(toks_suffix(tokens@, 0) =~= toks_model(tokens@));
    }
    if np < tokens.len() {
        proof {
            assert(toks_suffix(tokens@, np as int).len() > 0);
        }
        return Err(LpErr::Parse(ParseError::TrailingInput(np)));
    }
    proof {
        assert(toks_suffix(tokens@, np as int).len() == 0);
    }
    Ok(expr)
}


} // verus!
