//! Tokens and the lexing loop.
//!
//! `tokenize` turns a whole input line into the sequence of its tokens,
//! stripping whitespace between tokens and stopping at the first lexical
//! error.  The token grammar itself lives in `combinators`.

use vstd::prelude::*;

use crate::CalcError;
use crate::combinators::CharClass;
use crate::combinators::LexOut;
use crate::combinators::lemma_next_token_consumed;
use crate::combinators::next_token;
use crate::combinators::scan_class;
use crate::combinators::scan_len;
use crate::combinators::spec_next_token;
use crate::num::Num;
use crate::num::add_bits;
use crate::num::sub_bits;
use crate::num::mul_bits;
use crate::num::div_bits;
use crate::num::trunc_bits;
use crate::num::bits_of_i64;
use crate::num::trunc_rem;
use crate::num::f32_add;
use crate::num::f32_sub;
use crate::num::f32_mul;
use crate::num::f32_div;
use crate::num::f32_trunc;
use crate::num::f32_of_i64;

verus! {

/// A binary arithmetic operator.
#[derive(Clone, Copy, Debug, PartialEq, Eq, Structural)]
pub enum Operator {
    Add,
    Sub,
    Mul,
    Div,
    Mod,
}

/// What applying an operator to two numbers yields: the IEEE 754 binary32
/// operation on the operands' bit patterns, except that `Mod` first
/// truncates both operands to 64-bit integers, takes the remainder of
/// truncated division, and turns that integer back into a number.  A `Mod`
/// whose divisor truncates to zero yields nothing.
pub open spec fn spec_eval_op(op: Operator, left: Num, right: Num) -> Option<Num> {
    match op {
        Operator::Add => Some(Num { bits: add_bits(left.bits, right.bits) }),
        Operator::Sub => Some(Num { bits: sub_bits(left.bits, right.bits) }),
        Operator::Mul => Some(Num { bits: mul_bits(left.bits, right.bits) }),
        Operator::Div => Some(Num { bits: div_bits(left.bits, right.bits) }),
        Operator::Mod => {
            let l = trunc_bits(left.bits);
            let r = trunc_bits(right.bits);
            if r == 0 {
                None
            } else {
                Some(Num { bits: bits_of_i64(trunc_rem(l as int, r as int) as i64) })
            }
        },
    }
}

impl Operator {
    /// The precedence level that drives the parser: multiplicative
    /// operators bind tighter than additive ones.
    pub open spec fn spec_priority(self) -> u8 {
        match self {
            Operator::Add => 1,
            Operator::Sub => 1,
            Operator::Mul => 2,
            Operator::Div => 2,
            Operator::Mod => 2,
        }
    }

    /// Operator priority: `Add`/`Sub` bind at level 1, `Mul`/`Div`/`Mod` at
    /// level 2.
    pub fn priority(&self) -> (r: u8)
        ensures
            r == self.spec_priority(),
    {
        match self {
            Operator::Add => 1,
            Operator::Sub => 1,
            Operator::Mul => 2,
            Operator::Div => 2,
            Operator::Mod => 2,
        }
    }

    /// Apply the operator to two numbers.  Yields `None` exactly when a
    /// `Mod` divisor truncates to zero; every other application yields the
    /// IEEE 754 result described by `spec_eval_op`.
    pub fn eval(&self, left: Num, right: Num) -> (r: Option<Num>)
        ensures
            r == spec_eval_op(*self, left, right),
    {
        match self {
            Operator::Add => Some(Num { bits: f32_add(left.bits, right.bits) }),
            Operator::Sub => Some(Num { bits: f32_sub(left.bits, right.bits) }),
            Operator::Mul => Some(Num { bits: f32_mul(left.bits, right.bits) }),
            Operator::Div => Some(Num { bits: f32_div(left.bits, right.bits) }),
            Operator::Mod => {
                let l = f32_trunc(left.bits);
                let r = f32_trunc(right.bits);
                if r == 0 {
                    None
                } else {
                    // The remainder of truncated division, computed on
                    // magnitudes so that no intermediate step can overflow,
                    // with the dividend's sign restored afterwards.
                    let la: u64 = if l >= 0 {
                        l as u64
                    } else {
                        (-(l + 1)) as u64 + 1
                    };
                    let ra: u64 = if r >= 0 {
                        r as u64
                    } else {
                        (-(r + 1)) as u64 + 1
                    };
                    let ur: u64 = la % ra;
                    assert(ur < ra);
                    let rem: i64 = if l >= 0 {
                        ur as i64
                    } else {
                        -(ur as i64)
                    };
                    assert(rem == trunc_rem(l as int, r as int));
                    Some(Num { bits: f32_of_i64(rem) })
                }
            },
        }
    }
}

/// An atomic lexical unit of an input line.
///
/// An assignment is a single compound token: the lexer recognizes an
/// identifier followed by optional whitespace and a `=` that does not open
/// an arrow as one unit carrying the target's name.
#[derive(Debug, PartialEq)]
pub enum Token {
    /// An identifier.
    Id(String),
    /// A numeric literal.
    Number(Num),
    /// A binary arithmetic operator.
    Operator(Operator),
    /// An opening parenthesis.
    LBracket,
    /// A closing parenthesis.
    RBracket,
    /// An assignment to the named target.
    Assign(String),
    /// The function-definition arrow `=>`.
    Func,
}

/// The mathematical shape of a token: names are character sequences.
pub enum TokenV {
    Id(Seq<char>),
    Number(Num),
    Operator(Operator),
    LBracket,
    RBracket,
    Assign(Seq<char>),
    Func,
}

impl View for Token {
    type V = TokenV;

    open spec fn view(&self) -> TokenV {
        match self {
            Token::Id(name) => TokenV::Id(name@),
            Token::Number(n) => TokenV::Number(*n),
            Token::Operator(op) => TokenV::Operator(*op),
            Token::LBracket => TokenV::LBracket,
            Token::RBracket => TokenV::RBracket,
            Token::Assign(name) => TokenV::Assign(name@),
            Token::Func => TokenV::Func,
        }
    }
}

impl DeepView for Token {
    type V = TokenV;

    open spec fn deep_view(&self) -> TokenV {
        self.view()
    }
}

/// The token sequence of a whole line: tokens in order, whitespace after
/// each token stripped, cut short by the first lexical error.
pub open spec fn spec_tokenize(s: Seq<char>) -> Result<Seq<TokenV>, CalcError>
    decreases s.len(),
{
    match spec_next_token(s) {
        LexOut::End => Ok(Seq::empty()),
        LexOut::Fail(e) => Err(e),
        LexOut::Tok(tv, n) => {
            if 1 <= n <= s.len() {
                let rest = s.skip(n);
                let w = scan_len(rest, CharClass::Space);
                if 0 <= w <= rest.len() {
                    match spec_tokenize(rest.skip(w)) {
                        Ok(ts) => Ok(seq![tv] + ts),
                        Err(e) => Err(e),
                    }
                } else {
                    // Never reached: a scan stays within the text.
                    Err(CalcError::InvalidToken)
                }
            } else {
                // Never reached: a produced token consumes at least one
                // character and no more than the text holds.
                Err(CalcError::InvalidToken)
            }
        },
    }
}

/// Lex a whole line into its tokens.
///
/// Whitespace between tokens is stripped after each token; the line must
/// begin with a token, not with whitespace.  The first lexical error stops
/// the scan and is the result.
pub fn tokenize(src: &str) -> (r: Result<Vec<Token>, CalcError>)
    ensures
        ({
            match r {
                Ok(v) => spec_tokenize(src@) matches Ok(ts) && v.deep_view() == ts,
                Err(e) => spec_tokenize(src@) matches Err(e2) && e2 == e,
            }
        }),
{
    let mut tokens: Vec<Token> = Vec::new();
    let mut rem: &str = src;
    loop
        invariant
            ({
                let full = spec_tokenize(src@);
                let sub = spec_tokenize(rem@);
                &&& (sub matches Ok(ts) ==> (full matches Ok(fs) && fs == tokens.deep_view() + ts))
                &&& (sub matches Err(e) ==> (full matches Err(e2) && e2 == e))
            }),
        decreases rem@.len(),
    {
        proof {
            lemma_next_token_consumed(rem@);
        }
        let step = match next_token(rem) {
            Ok(p) => p,
            Err(e) => {
                return Err(e);
            },
        };
        match step.token {
            None => {
                proof {
                    assert(tokens.deep_view() + Seq::<TokenV>::empty() =~= tokens.deep_view());
                }
                return Ok(tokens);
            },
            Some(t) => {
                let ghost n = spec_next_token(rem@)->Tok_1;
                let ghost prev = tokens.deep_view();
                let ghost old_rem = rem@;
                tokens.push(t);
                let tail_len = step.tail.unicode_len();
                let w = scan_class(step.tail, 0, CharClass::Space);
                rem = step.tail.substring_char(w, tail_len);
                proof {
                    assert(step.tail@.skip(0) =~= step.tail@);
                    assert(rem@ =~= old_rem.skip(n).skip(w as int));
                    assert(tokens.deep_view() =~= prev.push(t@));
                    let sub_old = spec_tokenize(old_rem);
                    let sub_new = spec_tokenize(rem@);
                    match sub_new {
                        Ok(ts) => {
                            assert(sub_old matches Ok(os) && os == seq![t@] + ts);
                            assert(prev + (seq![t@] + ts) =~= tokens.deep_view() + ts);
                        },
                        Err(e) => {},
                    }
                }
            },
        }
    }
}

} // verus!
