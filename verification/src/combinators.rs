//! Token matchers.
//!
//! Each matcher takes the remaining text and returns the text after what it
//! consumed together with an optional token: `None` means the text does not
//! start with the matcher's shape, which is not an error.  `next_token`
//! tries the matchers in a fixed order: assignment, identifier, number,
//! function arrow, single-character symbols.

use vstd::prelude::*;

use core::str::FromStr;
use rustc_apfloat::Float;
use rustc_apfloat::ieee::Single;

use crate::CalcError;
use crate::lexer::Operator;
use crate::lexer::Token;
use crate::lexer::TokenV;
use crate::num::Num;

verus! {

/// A class of characters the lexer scans over.
#[derive(Clone, Copy, Debug, PartialEq, Eq, Structural)]
pub enum CharClass {
    /// Decimal digits and the decimal point.
    Numeric,
    /// Letters, digits and underscores.
    Ident,
    /// Whitespace.
    Space,
}

/// A decimal digit.
pub open spec fn is_digit(c: char) -> bool {
    48 <= c as u32 <= 57
}

/// An ASCII letter.
pub open spec fn is_alpha(c: char) -> bool {
    (65 <= c as u32 <= 90) || (97 <= c as u32 <= 122)
}

/// A character that may begin an identifier.
pub open spec fn is_ident_start(c: char) -> bool {
    is_alpha(c) || c == '_'
}

/// A whitespace character, by the Unicode `White_Space` property.
pub open spec fn is_space(c: char) -> bool {
    let u = c as u32;
    (9 <= u && u <= 13) || u == 32 || u == 133 || u == 160 || u == 5760 || (8192 <= u && u <= 8202)
        || u == 8232 || u == 8233 || u == 8239 || u == 8287 || u == 12288
}

/// Membership in a scanning class.
pub open spec fn in_class(c: char, k: CharClass) -> bool {
    match k {
        CharClass::Numeric => is_digit(c) || c == '.',
        CharClass::Ident => is_ident_start(c) || is_digit(c),
        CharClass::Space => is_space(c),
    }
}

/// The length of the longest prefix of `s` whose characters all belong to
/// the class.
pub open spec fn scan_len(s: Seq<char>, k: CharClass) -> int
    decreases s.len(),
{
    if s.len() == 0 || !in_class(s[0], k) {
        0
    } else {
        1 + scan_len(s.skip(1), k)
    }
}

/// `scan_len` is exactly the first index whose character leaves the class.
pub proof fn lemma_scan_len(s: Seq<char>, k: CharClass)
    ensures
        0 <= scan_len(s, k) <= s.len(),
        forall|j: int| 0 <= j < scan_len(s, k) ==> in_class(#[trigger] s[j], k),
        scan_len(s, k) < s.len() ==> !in_class(s[scan_len(s, k)], k),
    decreases s.len(),
{
    if s.len() == 0 || !in_class(s[0], k) {
    } else {
        lemma_scan_len(s.skip(1), k);
        assert forall|j: int| 0 <= j < scan_len(s, k) implies in_class(#[trigger] s[j], k) by {
            if j > 0 {
                assert(s.skip(1)[j - 1] == s[j]);
            }
        }
        if scan_len(s, k) < s.len() {
            assert(s.skip(1)[scan_len(s, k) - 1] == s[scan_len(s, k)]);
        }
    }
}

/// A prefix of in-class characters followed by an out-of-class character
/// (or the end) has exactly the scanned length.
pub proof fn lemma_scan_len_is(s: Seq<char>, k: CharClass, n: int)
    requires
        0 <= n <= s.len(),
        forall|j: int| 0 <= j < n ==> in_class(#[trigger] s[j], k),
        n < s.len() ==> !in_class(s[n], k),
    ensures
        scan_len(s, k) == n,
    decreases s.len(),
{
    if s.len() == 0 {
    } else if n == 0 {
    } else {
        assert(in_class(s[0], k));
        lemma_scan_len_is(s.skip(1), k, n - 1);
    }
}

/// Whether the character belongs to the class.
pub(crate) fn in_class_exec(c: char, k: CharClass) -> (r: bool)
    ensures
        r == in_class(c, k),
{
    let u = c as u32;
    match k {
        CharClass::Numeric => (48 <= u && u <= 57) || c == '.',
        CharClass::Ident => (65 <= u && u <= 90) || (97 <= u && u <= 122) || c == '_' || (48 <= u
            && u <= 57),
        CharClass::Space => (9 <= u && u <= 13) || u == 32 || u == 133 || u == 160 || u == 5760
            || (8192 <= u && u <= 8202) || u == 8232 || u == 8233 || u == 8239 || u == 8287
            || u == 12288,
    }
}

/// Scan forward from `from` over characters of the class; the result is the
/// first position at or after `from` whose character leaves the class.
pub(crate) fn scan_class(src: &str, from: usize, k: CharClass) -> (r: usize)
    requires
        from <= src@.len(),
    ensures
        from <= r <= src@.len(),
        r - from == scan_len(src@.skip(from as int), k),
{
    let len = src.unicode_len();
    let mut i: usize = from;
    while i < len
        invariant
            from <= i <= len,
            len == src@.len(),
            forall|j: int| from <= j < i ==> in_class(#[trigger] src@[j], k),
        decreases len - i,
    {
        let c = src.get_char(i);
        if !in_class_exec(c, k) {
            proof {
                let t = src@.skip(from as int);
                assert forall|j: int| 0 <= j < i - from implies in_class(#[trigger] t[j], k) by {
                    assert(t[j] == src@[from + j]);
                }
                assert(t[i - from] == src@[i as int]);
                lemma_scan_len_is(t, k, i - from);
            }
            return i;
        }
        i = i + 1;
    }
    proof {
        let t = src@.skip(from as int);
        assert forall|j: int| 0 <= j < i - from implies in_class(#[trigger] t[j], k) by {
            assert(t[j] == src@[from + j]);
        }
        lemma_scan_len_is(t, k, i - from);
    }
    i
}

/// The number of decimal points in the sequence.
pub open spec fn dot_count(s: Seq<char>) -> int
    decreases s.len(),
{
    if s.len() == 0 {
        0
    } else {
        dot_count(s.drop_last()) + if s.last() == '.' {
            1int
        } else {
            0int
        }
    }
}

/// Count the decimal points of a literal.
fn count_dots(src: &str) -> (r: usize)
    ensures
        r == dot_count(src@),
{
    let len = src.unicode_len();
    let mut i: usize = 0;
    let mut count: usize = 0;
    while i < len
        invariant
            0 <= i <= len,
            len == src@.len(),
            count <= i,
            count == dot_count(src@.take(i as int)),
        decreases len - i,
    {
        let c = src.get_char(i);
        proof {
            assert(src@.take(i + 1).drop_last() =~= src@.take(i as int));
            assert(src@.take(i + 1).last() == src@[i as int]);
        }
        if c as u32 == 46 {
            count = count + 1;
        }
        i = i + 1;
    }
    proof {
        assert(src@.take(len as int) =~= src@);
    }
    count
}

/// What a numeric literal names: the IEEE 754 binary32 value nearest to the
/// decimal it spells, as a bit pattern, or nothing when the text spells no
/// number.
pub uninterp spec fn decimal_bits(s: Seq<char>) -> Option<u32>;

/// A literal the number matcher can produce: nonempty, nothing but digits
/// and decimal points, at most one point.
pub open spec fn is_simple_decimal(s: Seq<char>) -> bool {
    s.len() > 0 && (forall|j: int| 0 <= j < s.len() ==> in_class(#[trigger] s[j], CharClass::Numeric))
        && dot_count(s) <= 1
}

/// Whether the sequence holds at least one decimal digit.
pub open spec fn has_digit(s: Seq<char>) -> bool {
    exists|j: int| 0 <= j < s.len() && is_digit(#[trigger] s[j])
}

/// Relies on rustc_apfloat's `Single::from_str`: the decimal the text
/// spells, correctly rounded to the nearest IEEE 754 binary32 value (ties
/// to even).  Its parser accepts a string of digits with at most one
/// decimal point exactly when the string holds at least one digit, and
/// rejects a lone decimal point.
#[verifier::external_body]
fn decimal_to_bits(s: &str) -> (r: Option<u32>)
    ensures
        r == decimal_bits(s@),
        is_simple_decimal(s@) ==> (r is Some <==> has_digit(s@)),
{
    match Single::from_str(s) {
        Ok(f) => Some(f.to_bits() as u32),
        Err(_) => None,
    }
}

/// What a matcher made of the text: the text after what it consumed, and
/// the token it produced, if the text started with the matcher's shape.
#[derive(Debug, PartialEq)]
pub struct ParseProgress<'a, T> {
    /// The text after the consumed prefix.
    pub tail: &'a str,
    /// The recognized token, or `None` when the text starts with some other
    /// shape.
    pub token: Option<T>,
}

/// A matcher's outcome: progress, or a lexical error.
pub type ParseResult<'a, T> = Result<ParseProgress<'a, T>, CalcError>;

impl<'a, T> ParseProgress<'a, T> {
    /// Progress that consumed nothing and recognized nothing.
    pub fn none(tail: &'a str) -> (r: ParseResult<'a, T>)
        ensures
            r matches Ok(p) && p.tail@ == tail@ && p.token is None,
    {
        Ok(ParseProgress { tail, token: None })
    }

    /// Progress that recognized `token` and left `tail`.
    pub fn some(tail: &'a str, token: T) -> (r: ParseResult<'a, T>)
        ensures
            r matches Ok(p) && p.tail@ == tail@ && (p.token matches Some(t) && t == token),
    {
        Ok(ParseProgress { tail, token: Some(token) })
    }
}

/// Match a numeric literal: the longest prefix of digits and decimal
/// points.  More than one point is an error; so is a prefix that spells no
/// number (a lone point).
pub fn number<'a>(src: &'a str) -> (r: ParseResult<'a, Num>)
    ensures
        ({
            let k = scan_len(src@, CharClass::Numeric);
            let lit = src@.take(k);
            &&& (k == 0 ==> (r matches Ok(p) && p.tail@ == src@ && p.token is None))
            &&& (k > 0 && dot_count(lit) > 1 ==> (r matches Err(e) && e == CalcError::MultipleDots))
            &&& (k > 0 && dot_count(lit) <= 1 && decimal_bits(lit) is None ==> (r matches Err(e)
                && e == CalcError::InvalidNumber))
            &&& (k > 0 && dot_count(lit) <= 1 && decimal_bits(lit) is Some ==> (r matches Ok(p)
                && p.tail@ == src@.skip(k) && (p.token matches Some(n) && n.bits == decimal_bits(
                lit,
            )->0)))
        }),
{
    let len = src.unicode_len();
    let k = scan_class(src, 0, CharClass::Numeric);
    proof {
        assert(src@.skip(0) =~= src@);
    }
    if k == 0 {
        return ParseProgress::none(src);
    }
    let literal = src.substring_char(0, k);
    let tail = src.substring_char(k, len);
    proof {
        assert(literal@ =~= src@.take(k as int));
        assert(tail@ =~= src@.skip(k as int));
    }
    let dots = count_dots(literal);
    if dots > 1 {
        Err(CalcError::MultipleDots)
    } else {
        match decimal_to_bits(literal) {
            Some(bits) => ParseProgress::some(tail, Num { bits }),
            None => Err(CalcError::InvalidNumber),
        }
    }
}

/// Match an identifier: a letter or underscore followed by letters, digits
/// and underscores.
pub fn identifier<'a>(src: &'a str) -> (r: ParseResult<'a, &'a str>)
    ensures
        ({
            let ok = src@.len() > 0 && is_ident_start(src@[0]);
            let k = scan_len(src@, CharClass::Ident);
            &&& (!ok ==> (r matches Ok(p) && p.tail@ == src@ && p.token is None))
            &&& (ok ==> (r matches Ok(p) && p.tail@ == src@.skip(k) && (p.token matches Some(id)
                && id@ == src@.take(k))))
        }),
{
    let len = src.unicode_len();
    if len == 0 {
        return ParseProgress::none(src);
    }
    let c = src.get_char(0);
    let u = c as u32;
    if (65 <= u && u <= 90) || (97 <= u && u <= 122) || c == '_' {
        let k = scan_class(src, 0, CharClass::Ident);
        proof {
            assert(src@.skip(0) =~= src@);
        }
        let literal = src.substring_char(0, k);
        let tail = src.substring_char(k, len);
        proof {
            assert(literal@ =~= src@.take(k as int));
            assert(tail@ =~= src@.skip(k as int));
        }
        ParseProgress::some(tail, literal)
    } else {
        ParseProgress::none(src)
    }
}

/// The length of the identifier that begins the text, or zero when none
/// does.
pub open spec fn ident_len(s: Seq<char>) -> int {
    if s.len() > 0 && is_ident_start(s[0]) {
        scan_len(s, CharClass::Ident)
    } else {
        0
    }
}

/// How much an assignment token consumes: the identifier, the whitespace
/// after it, and the `=`.
pub open spec fn assign_consumed(s: Seq<char>) -> int {
    let k = ident_len(s);
    k + scan_len(s.skip(k), CharClass::Space) + 1
}

/// Whether the text begins with an assignment: an identifier, optional
/// whitespace, and a `=` that does not open a `=>` arrow.
pub open spec fn is_assignment(s: Seq<char>) -> bool {
    let k = ident_len(s);
    let w = k + scan_len(s.skip(k), CharClass::Space);
    k > 0 && w < s.len() && s[w] == '=' && !(w + 1 < s.len() && s[w + 1] == '>')
}

/// Match an assignment: an identifier, optional whitespace, and a `=` not
/// followed by `>`.  The token carries the target's name; the `=` is
/// consumed.
pub fn assignment<'a>(src: &'a str) -> (r: ParseResult<'a, &'a str>)
    ensures
        !is_assignment(src@) ==> (r matches Ok(p) && p.tail@ == src@ && p.token is None),
        is_assignment(src@) ==> (r matches Ok(p) && p.tail@ == src@.skip(assign_consumed(src@))
            && (p.token matches Some(id) && id@ == src@.take(ident_len(src@)))),
{
    let progress = identifier(src)?;
    let id = match progress.token {
        Some(id) => id,
        None => {
            return ParseProgress::none(src);
        },
    };
    let ghost k = ident_len(src@);
    let tail = progress.tail;
    let tail_len = tail.unicode_len();
    let w = scan_class(tail, 0, CharClass::Space);
    proof {
        lemma_scan_len(src@, CharClass::Ident);
        assert(tail@.skip(0) =~= tail@);
        assert(tail@ == src@.skip(k));
        assert(k > 0);
        assert forall|j: int| 0 <= j < tail@.len() implies tail@[j] == src@[k + j] by {
            assert(src@.skip(k)[j] == src@[k + j]);
        }
        assert(w == scan_len(src@.skip(k), CharClass::Space));
    }
    if w < tail_len {
        let c = tail.get_char(w);
        let is_arrow = if w + 1 < tail_len {
            let c2 = tail.get_char(w + 1);
            c2 == '>'
        } else {
            false
        };
        if c == '=' && !is_arrow {
            let rest = tail.substring_char(w + 1, tail_len);
            proof {
                assert(src@[k + w] == tail@[w as int]);
                assert(w + 1 < tail@.len() ==> src@[k + w + 1] == tail@[w + 1]);
                assert(is_assignment(src@));
                assert(rest@ =~= src@.skip(assign_consumed(src@)));
            }
            return ParseProgress::some(rest, id);
        }
    }
    proof {
        if is_assignment(src@) {
            let ww = k + scan_len(src@.skip(k), CharClass::Space);
            assert(src@[ww] == tail@[ww - k]);
            assert(ww + 1 < src@.len() ==> src@[ww + 1] == tail@[ww + 1 - k]);
        }
    }
    ParseProgress::none(src)
}

/// One step of lexing: the end of the text, a token and how many characters
/// it consumed, or a lexical error.
pub enum LexOut {
    End,
    Tok(TokenV, int),
    Fail(CalcError),
}

/// The first token of the text, by the matcher order: assignment,
/// identifier, number, function arrow, single-character symbols.
pub open spec fn spec_next_token(s: Seq<char>) -> LexOut {
    if s.len() == 0 {
        LexOut::End
    } else if is_assignment(s) {
        LexOut::Tok(TokenV::Assign(s.take(ident_len(s))), assign_consumed(s))
    } else if ident_len(s) > 0 {
        LexOut::Tok(TokenV::Id(s.take(ident_len(s))), ident_len(s))
    } else {
        let k = scan_len(s, CharClass::Numeric);
        if k > 0 {
            let lit = s.take(k);
            if dot_count(lit) > 1 {
                LexOut::Fail(CalcError::MultipleDots)
            } else if decimal_bits(lit) is None {
                LexOut::Fail(CalcError::InvalidNumber)
            } else {
                LexOut::Tok(TokenV::Number(Num { bits: decimal_bits(lit)->0 }), k)
            }
        } else if s.len() >= 2 && s[0] == '=' && s[1] == '>' {
            LexOut::Tok(TokenV::Func, 2)
        } else if s[0] == '+' {
            LexOut::Tok(TokenV::Operator(Operator::Add), 1)
        } else if s[0] == '-' {
            LexOut::Tok(TokenV::Operator(Operator::Sub), 1)
        } else if s[0] == '*' {
            LexOut::Tok(TokenV::Operator(Operator::Mul), 1)
        } else if s[0] == '/' {
            LexOut::Tok(TokenV::Operator(Operator::Div), 1)
        } else if s[0] == '%' {
            LexOut::Tok(TokenV::Operator(Operator::Mod), 1)
        } else if s[0] == '(' {
            LexOut::Tok(TokenV::LBracket, 1)
        } else if s[0] == ')' {
            LexOut::Tok(TokenV::RBracket, 1)
        } else {
            LexOut::Fail(CalcError::InvalidToken)
        }
    }
}

/// The token a single-character symbol stands for.
pub open spec fn symbol_token(c: char) -> TokenV {
    if c == '+' {
        TokenV::Operator(Operator::Add)
    } else if c == '-' {
        TokenV::Operator(Operator::Sub)
    } else if c == '*' {
        TokenV::Operator(Operator::Mul)
    } else if c == '/' {
        TokenV::Operator(Operator::Div)
    } else if c == '%' {
        TokenV::Operator(Operator::Mod)
    } else if c == '(' {
        TokenV::LBracket
    } else {
        TokenV::RBracket
    }
}

/// Law: text that starts with a recognized operator or bracket symbol
/// lexes to the corresponding token, and consumes exactly that one
/// character.
pub proof fn lemma_symbol_tokens(s: Seq<char>)
    requires
        s.len() > 0,
        s[0] == '+' || s[0] == '-' || s[0] == '*' || s[0] == '/' || s[0] == '%' || s[0] == '('
            || s[0] == ')',
    ensures
        spec_next_token(s) == LexOut::Tok(symbol_token(s[0]), 1),
{
    assert(s.skip(0) =~= s);
    assert(!is_ident_start(s[0]));
    assert(ident_len(s) == 0);
    assert(!in_class(s[0], CharClass::Space));
    assert(scan_len(s, CharClass::Space) == 0);
    assert(!is_assignment(s));
    assert(!in_class(s[0], CharClass::Numeric));
    assert(scan_len(s, CharClass::Numeric) == 0);
}

/// Every produced token consumed at least one character and no more than
/// the text holds.
pub proof fn lemma_next_token_consumed(s: Seq<char>)
    ensures
        spec_next_token(s) matches LexOut::Tok(tv, n) ==> 1 <= n <= s.len(),
{
    if s.len() == 0 {
    } else if is_assignment(s) {
        let k = ident_len(s);
        lemma_scan_len(s, CharClass::Ident);
        lemma_scan_len(s.skip(k), CharClass::Space);
    } else if ident_len(s) > 0 {
        lemma_scan_len(s, CharClass::Ident);
    } else {
        lemma_scan_len(s, CharClass::Numeric);
    }
}

/// Match the first token of the text.  The end of the text yields progress
/// without a token; text that starts with no recognized shape is an error.
pub fn next_token<'a>(src: &'a str) -> (r: ParseResult<'a, Token>)
    ensures
        ({
            match spec_next_token(src@) {
                LexOut::End => r matches Ok(p) && p.token is None && p.tail@ == src@,
                LexOut::Tok(tv, n) => (r matches Ok(p) && p.tail@ == src@.skip(n)
                    && (p.token matches Some(t) && t@ == tv)),
                LexOut::Fail(e) => r matches Err(e2) && e2 == e,
            }
        }),
{
    let len = src.unicode_len();
    if len == 0 {
        return ParseProgress::none(src);
    }

    let assign = assignment(src)?;
    if let Some(tok) = assign.token {
        return ParseProgress::some(assign.tail, Token::Assign(tok.to_owned()));
    }

    let id = identifier(src)?;
    if let Some(tok) = id.token {
        proof {
            lemma_scan_len(src@, CharClass::Ident);
            assert(in_class(src@[0], CharClass::Ident));
            assert(ident_len(src@) > 0);
        }
        return ParseProgress::some(id.tail, Token::Id(tok.to_owned()));
    }

    proof {
        lemma_scan_len(src@, CharClass::Numeric);
    }
    let num = number(src)?;
    if let Some(tok) = num.token {
        proof {
            assert(scan_len(src@, CharClass::Numeric) > 0);
        }
        return ParseProgress::some(num.tail, Token::Number(tok));
    }

    let c0 = src.get_char(0);

    if c0 == '=' && len >= 2 {
        let c1 = src.get_char(1);
        if c1 == '>' {
            let tail = src.substring_char(2, len);
            return ParseProgress::some(tail, Token::Func);
        }
    }

    let tok = if c0 == '+' {
        Token::Operator(Operator::Add)
    } else if c0 == '-' {
        Token::Operator(Operator::Sub)
    } else if c0 == '*' {
        Token::Operator(Operator::Mul)
    } else if c0 == '/' {
        Token::Operator(Operator::Div)
    } else if c0 == '%' {
        Token::Operator(Operator::Mod)
    } else if c0 == '(' {
        Token::LBracket
    } else if c0 == ')' {
        Token::RBracket
    } else {
        return Err(CalcError::InvalidToken);
    };

    let tail = src.substring_char(1, len);
    ParseProgress::some(tail, tok)
}

} // verus!
