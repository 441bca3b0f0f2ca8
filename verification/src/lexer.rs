//! The lexer: turns source bytes into tokens, one at a time.
//!
//! Whitespace (space, tab, carriage return) separates tokens; `;` and
//! newline produce the end-of-statement token. A run of digits with at
//! most one embedded dot is a numeric literal; a letter starts an
//! identifier, and the exact word `print` is the print keyword. Each
//! punctuation byte maps to its token; any other byte is a lexing error.

use crate::bytes::bytes_range;
use crate::enums::LexError;
use crate::enums::Token;
use crate::enums::TokenView;
use crate::rat::Rat;
use vstd::prelude::*;

verus! {

/// Byte values of the characters the lexer recognizes.
pub const B_SPACE: u8 = 32;

pub const B_TAB: u8 = 9;

pub const B_CR: u8 = 13;

pub const B_NEWLINE: u8 = 10;

pub const B_SEMI: u8 = 59;

pub const B_DOT: u8 = 46;

pub const B_ZERO: u8 = 48;

pub const B_NINE: u8 = 57;

pub const B_LOWER_A: u8 = 97;

pub const B_LOWER_Z: u8 = 122;

pub const B_UPPER_A: u8 = 65;

pub const B_UPPER_Z: u8 = 90;

pub const B_PLUS: u8 = 43;

pub const B_MINUS: u8 = 45;

pub const B_STAR: u8 = 42;

pub const B_SLASH: u8 = 47;

pub const B_CARET: u8 = 94;

pub const B_LPAREN: u8 = 40;

pub const B_RPAREN: u8 = 41;

pub const B_EQUAL: u8 = 61;

pub const B_BANG: u8 = 33;

pub const B_P: u8 = 112;

pub const B_R: u8 = 114;

pub const B_I: u8 = 105;

pub const B_N: u8 = 110;

pub const B_T: u8 = 116;

/// Whitespace between tokens (the newline is a statement terminator,
/// not whitespace).
pub open spec fn is_space(c: u8) -> bool {
    c == B_SPACE || c == B_TAB || c == B_CR
}

/// An ASCII decimal digit.
pub open spec fn is_digit(c: u8) -> bool {
    B_ZERO <= c <= B_NINE
}

/// An ASCII letter.
pub open spec fn is_alpha(c: u8) -> bool {
    (B_LOWER_A <= c <= B_LOWER_Z) || (B_UPPER_A <= c <= B_UPPER_Z)
}

/// A letter or digit: the continuation of an identifier.
pub open spec fn is_alnum(c: u8) -> bool {
    is_alpha(c) || is_digit(c)
}

/// A byte that extends a numeric literal run.
pub open spec fn is_num_char(c: u8) -> bool {
    is_digit(c) || c == B_DOT
}

/// The first index at or after `i` that holds no whitespace.
pub open spec fn skip_ws(s: Seq<u8>, i: int) -> int
    decreases s.len() - i,
{
    if 0 <= i < s.len() && is_space(s[i]) {
        skip_ws(s, i + 1)
    } else {
        i
    }
}

/// The end of the run of digits and dots that starts at `i`.
pub open spec fn num_run_end(s: Seq<u8>, i: int) -> int
    decreases s.len() - i,
{
    if 0 <= i < s.len() && is_num_char(s[i]) {
        num_run_end(s, i + 1)
    } else {
        i
    }
}

/// The end of the run of letters and digits that starts at `i`.
pub open spec fn ident_run_end(s: Seq<u8>, i: int) -> int
    decreases s.len() - i,
{
    if 0 <= i < s.len() && is_alnum(s[i]) {
        ident_run_end(s, i + 1)
    } else {
        i
    }
}

/// How many dots a run holds.
pub open spec fn dot_count(r: Seq<u8>) -> nat
    decreases r.len(),
{
    if r.len() == 0 {
        0
    } else {
        dot_count(r.drop_last()) + (if r.last() == B_DOT {
            1nat
        } else {
            0nat
        })
    }
}

/// The index of the first dot in a run, or its length when it has none.
pub open spec fn first_dot(r: Seq<u8>) -> int
    decreases r.len(),
{
    if r.len() == 0 {
        0
    } else {
        let p = first_dot(r.drop_last());
        if p < r.len() - 1 {
            p
        } else if r.last() == B_DOT {
            r.len() - 1
        } else {
            r.len() as int
        }
    }
}

/// The digits of a run, with any dot removed.
pub open spec fn digits_of(r: Seq<u8>) -> Seq<u8>
    decreases r.len(),
{
    if r.len() == 0 {
        Seq::empty()
    } else if is_digit(r.last()) {
        digits_of(r.drop_last()).push(r.last())
    } else {
        digits_of(r.drop_last())
    }
}

/// The value of a digit string read in base ten.
pub open spec fn digits_value(d: Seq<u8>) -> int
    decreases d.len(),
{
    if d.len() == 0 {
        0
    } else {
        digits_value(d.drop_last()) * 10 + (d.last() - B_ZERO)
    }
}

/// How many digits follow the first dot of a run.
pub open spec fn frac_len(r: Seq<u8>) -> nat
    decreases r.len(),
{
    if r.len() == 0 {
        0
    } else {
        frac_len(r.drop_last()) + (if is_digit(r.last()) && first_dot(r.drop_last()) < r.len() - 1 {
            1nat
        } else {
            0nat
        })
    }
}

/// Ten to the `n`-th power.
pub open spec fn pow10(n: nat) -> nat
    decreases n,
{
    if n == 0 {
        1
    } else {
        10 * pow10((n - 1) as nat)
    }
}

/// The numerator a numeric literal run denotes: its digits read in base
/// ten.
pub open spec fn lit_num(r: Seq<u8>) -> int {
    digits_value(digits_of(r))
}

/// The denominator a numeric literal run denotes: ten to the number of
/// fractional digits.
pub open spec fn lit_den(r: Seq<u8>) -> int {
    pow10(frac_len(r)) as int
}

/// A well-formed numeric literal run: non-empty, at most one dot, and it
/// ends with a digit.
pub open spec fn valid_number_run(r: Seq<u8>) -> bool {
    r.len() > 0 && dot_count(r) <= 1 && is_digit(r[r.len() - 1])
}

/// The bytes of the keyword `print`.
pub open spec fn print_kw() -> Seq<u8> {
    seq![B_P, B_R, B_I, B_N, B_T]
}

/// The outcome of lexing the numeric literal run that starts at `j`
/// (which must hold a digit).
pub open spec fn spec_number_token(s: Seq<u8>, j: int) -> Result<
    Option<(TokenView, int)>,
    LexError,
> {
    let k = num_run_end(s, j);
    let r = s.subrange(j, k);
    if !valid_number_run(r) {
        Err(LexError::MalformedNumber)
    } else if lit_num(r) > i64::MAX as int || lit_den(r) > i64::MAX as int {
        Err(LexError::NumberTooLarge)
    } else {
        Ok(Some((TokenView::Number(Rat { num: lit_num(r) as i64, den: lit_den(r) as i64 }), k)))
    }
}

/// The outcome of lexing the word that starts at `j` (which must hold a
/// letter): the keyword `print`, or an identifier.
pub open spec fn spec_word_token(s: Seq<u8>, j: int) -> Result<
    Option<(TokenView, int)>,
    LexError,
> {
    let k = ident_run_end(s, j);
    let w = s.subrange(j, k);
    if w == print_kw() {
        Ok(Some((TokenView::Print, k)))
    } else {
        Ok(Some((TokenView::Identifier(w), k)))
    }
}

/// The next token of `s` at or after `i`: `Ok(None)` at the end of input,
/// the token and the position after it otherwise, or the first lexing
/// error.
pub open spec fn spec_next_token(s: Seq<u8>, i: int) -> Result<
    Option<(TokenView, int)>,
    LexError,
> {
    let j = skip_ws(s, i);
    if !(0 <= j < s.len()) {
        Ok(None)
    } else {
        let c = s[j];
        if c == B_SEMI || c == B_NEWLINE {
            Ok(Some((TokenView::End, j + 1)))
        } else if is_digit(c) {
            spec_number_token(s, j)
        } else if is_alpha(c) {
            spec_word_token(s, j)
        } else if c == B_PLUS {
            Ok(Some((TokenView::Plus, j + 1)))
        } else if c == B_MINUS {
            Ok(Some((TokenView::Minus, j + 1)))
        } else if c == B_STAR {
            Ok(Some((TokenView::Star, j + 1)))
        } else if c == B_SLASH {
            Ok(Some((TokenView::Slash, j + 1)))
        } else if c == B_CARET {
            Ok(Some((TokenView::Power, j + 1)))
        } else if c == B_LPAREN {
            Ok(Some((TokenView::LParen, j + 1)))
        } else if c == B_RPAREN {
            Ok(Some((TokenView::RParen, j + 1)))
        } else if c == B_EQUAL {
            Ok(Some((TokenView::Equal, j + 1)))
        } else if c == B_BANG {
            Ok(Some((TokenView::Factorial, j + 1)))
        } else {
            Err(LexError::UnrecognizedChar(c))
        }
    }
}

/// The whole token sequence of `s` from `i` on, or the first lexing
/// error.
pub open spec fn spec_lex(s: Seq<u8>, i: int) -> Result<Seq<TokenView>, LexError>
    decreases s.len() - i,
{
    match spec_next_token(s, i) {
        Err(e) => Err(e),
        Ok(None) => Ok(Seq::empty()),
        Ok(Some((tv, j))) => if i < j <= s.len() {
            match spec_lex(s, j) {
                Err(e) => Err(e),
                Ok(rest) => Ok(seq![tv] + rest),
            }
        } else {
            Ok(seq![tv])
        },
    }
}

/// How an executable lexing step relates to its specification.
pub open spec fn next_token_matches(
    r: Result<Option<Token>, LexError>,
    s: Result<Option<(TokenView, int)>, LexError>,
    pos_after: int,
) -> bool {
    match (r, s) {
        (Ok(Some(t)), Ok(Some((tv, j)))) => t@ == tv && pos_after == j,
        (Ok(None), Ok(None)) => true,
        (Err(e1), Err(e2)) => e1 == e2,
        _ => false,
    }
}

/// The run of digits and dots starting at `i` stays within bounds and
/// holds only digits and dots.
pub proof fn lemma_num_run(s: Seq<u8>, i: int)
    requires
        0 <= i <= s.len(),
    ensures
        i <= num_run_end(s, i) <= s.len(),
        forall|m: int| i <= m < num_run_end(s, i) ==> is_num_char(s[m]),
    decreases s.len() - i,
{
    if i < s.len() && is_num_char(s[i]) {
        lemma_num_run(s, i + 1);
    }
}

/// The run of letters and digits starting at `i` stays within bounds.
pub proof fn lemma_ident_run(s: Seq<u8>, i: int)
    requires
        0 <= i <= s.len(),
    ensures
        i <= ident_run_end(s, i) <= s.len(),
        forall|m: int| i <= m < ident_run_end(s, i) ==> is_alnum(s[m]),
    decreases s.len() - i,
{
    if i < s.len() && is_alnum(s[i]) {
        lemma_ident_run(s, i + 1);
    }
}

/// Every byte of `digits_of(r)` is a digit.
pub proof fn lemma_digits_of_digits(r: Seq<u8>)
    ensures
        forall|m: int| 0 <= m < digits_of(r).len() ==> is_digit(digits_of(r)[m]),
    decreases r.len(),
{
    if r.len() > 0 {
        lemma_digits_of_digits(r.drop_last());
        if is_digit(r.last()) {
            assert(digits_of(r) == digits_of(r.drop_last()).push(r.last()));
            assert forall|m: int| 0 <= m < digits_of(r).len() implies is_digit(
                digits_of(r)[m],
            ) by {
                if m < digits_of(r).len() - 1 {
                    assert(digits_of(r)[m] == digits_of(r.drop_last())[m]);
                }
            }
        }
    }
}

/// The value of a digit string is non-negative.
pub proof fn lemma_digits_value_nonneg(d: Seq<u8>)
    requires
        forall|m: int| 0 <= m < d.len() ==> is_digit(d[m]),
    ensures
        digits_value(d) >= 0,
    decreases d.len(),
{
    if d.len() > 0 {
        lemma_digits_value_nonneg(d.drop_last());
    }
}

/// Dropping the last byte of a run cannot raise the literal's numerator
/// or its count of fractional digits.
pub proof fn lemma_lit_shrink(r: Seq<u8>)
    requires
        r.len() > 0,
    ensures
        lit_num(r.drop_last()) <= lit_num(r),
        frac_len(r.drop_last()) <= frac_len(r),
{
    lemma_digits_of_digits(r.drop_last());
    lemma_digits_value_nonneg(digits_of(r.drop_last()));
    if is_digit(r.last()) {
        assert(digits_of(r) == digits_of(r.drop_last()).push(r.last()));
        assert(digits_of(r).drop_last() =~= digits_of(r.drop_last()));
    }
}

/// A prefix of a run denotes no larger a numerator and no more
/// fractional digits than the whole run.
pub proof fn lemma_lit_prefix(r: Seq<u8>, m: int)
    requires
        0 <= m <= r.len(),
    ensures
        lit_num(r.subrange(0, m)) <= lit_num(r),
        frac_len(r.subrange(0, m)) <= frac_len(r),
    decreases r.len(),
{
    if m == r.len() {
        assert(r.subrange(0, m) =~= r);
    } else {
        lemma_lit_shrink(r);
        assert(r.drop_last() =~= r.subrange(0, r.len() - 1));
        assert(r.subrange(0, m) =~= r.subrange(0, r.len() - 1).subrange(0, m));
        lemma_lit_prefix(r.subrange(0, r.len() - 1), m);
    }
}

/// Ten to a larger power is no smaller.
pub proof fn lemma_pow10_mono(a: nat, b: nat)
    requires
        a <= b,
    ensures
        pow10(a) <= pow10(b),
    decreases b,
{
    if b > a {
        lemma_pow10_mono(a, (b - 1) as nat);
    }
}

/// Ten to any power is at least one.
pub proof fn lemma_pow10_pos(n: nat)
    ensures
        pow10(n) >= 1,
    decreases n,
{
    if n > 0 {
        lemma_pow10_pos((n - 1) as nat);
    }
}

/// Every token the lexer yields is well-formed: a numeric literal's
/// denominator is a positive power of ten.
pub proof fn lemma_lex_wf(s: Seq<u8>, i: int)
    ensures
        spec_lex(s, i) matches Ok(tvs) ==> crate::enums::toks_wf(tvs),
    decreases s.len() - i,
{
    let j = skip_ws(s, i);
    if 0 <= j < s.len() && is_digit(s[j]) {
        lemma_pow10_pos(frac_len(s.subrange(j, num_run_end(s, j))));
    }
    match spec_next_token(s, i) {
        Err(_) => {},
        Ok(None) => {},
        Ok(Some((tv, k))) => {
            assert(crate::enums::token_wf(tv));
            if i < k <= s.len() {
                lemma_lex_wf(s, k);
                match spec_lex(s, k) {
                    Err(_) => {},
                    Ok(rest) => {
                        let whole = seq![tv] + rest;
                        assert forall|m: int| 0 <= m < whole.len() implies crate::enums::token_wf(
                            whole[m],
                        ) by {
                            if m == 0 {
                                assert(whole[0] == tv);
                            } else {
                                assert(whole[m] == rest[m - 1]);
                            }
                        }
                    },
                }
            }
        },
    }
}

fn byte_is_space(c: u8) -> (r: bool)
    ensures
        r == is_space(c),
{
    c == B_SPACE || c == B_TAB || c == B_CR
}

fn byte_is_digit(c: u8) -> (r: bool)
    ensures
        r == is_digit(c),
{
    B_ZERO <= c && c <= B_NINE
}

fn byte_is_alpha(c: u8) -> (r: bool)
    ensures
        r == is_alpha(c),
{
    (B_LOWER_A <= c && c <= B_LOWER_Z) || (B_UPPER_A <= c && c <= B_UPPER_Z)
}

fn byte_is_alnum(c: u8) -> (r: bool)
    ensures
        r == is_alnum(c),
{
    byte_is_alpha(c) || byte_is_digit(c)
}

fn byte_is_num_char(c: u8) -> (r: bool)
    ensures
        r == is_num_char(c),
{
    byte_is_digit(c) || c == B_DOT
}

/// A forward-only cursor over source bytes that hands out one token at a
/// time.
pub struct Lexer {
    /// The source text.
    pub input: Vec<u8>,
    /// The position of the next byte to examine.
    pub pos: usize,
}

impl Lexer {
    /// The cursor lies within the input.
    pub open spec fn wf(self) -> bool {
        self.pos <= self.input@.len()
    }

    /// A lexer at the start of `input`.
    pub fn new(input: Vec<u8>) -> (r: Lexer)
        ensures
            r.wf(),
            r.input@ == input@,
            r.pos == 0,
    {
        Lexer { input, pos: 0 }
    }

    /// The next token, `Ok(None)` at the end of input, or the first
    /// lexing error.
    pub fn next_token(&mut self) -> (r: Result<Option<Token>, LexError>)
        requires
            old(self).wf(),
        ensures
            final(self).wf(),
            final(self).input@ == old(self).input@,
            next_token_matches(
                r,
                spec_next_token(old(self).input@, old(self).pos as int),
                final(self).pos as int,
            ),
            r matches Ok(Some(_)) ==> final(self).pos > old(self).pos,
    {
        let ghost s = self.input@;
        let ghost i0 = self.pos as int;
        while self.pos < self.input.len() && byte_is_space(self.input[self.pos])
            invariant
                self.wf(),
                self.input@ == s,
                old(self).input@ == s,
                old(self).pos == i0,
                i0 <= self.pos,
                skip_ws(s, self.pos as int) == skip_ws(s, i0),
            decreases s.len() - self.pos,
        {
            self.pos = self.pos + 1;
        }
        if self.pos == self.input.len() {
            return Ok(None);
        }
        let c = self.input[self.pos];
        if c == B_SEMI || c == B_NEWLINE {
            self.pos = self.pos + 1;
            return Ok(Some(Token::End));
        }
        if byte_is_digit(c) {
            return self.lex_number();
        }
        if byte_is_alpha(c) {
            return self.lex_word();
        }
        if c == B_PLUS {
            self.pos = self.pos + 1;
            return Ok(Some(Token::Plus));
        }
        if c == B_MINUS {
            self.pos = self.pos + 1;
            return Ok(Some(Token::Minus));
        }
        if c == B_STAR {
            self.pos = self.pos + 1;
            return Ok(Some(Token::Star));
        }
        if c == B_SLASH {
            self.pos = self.pos + 1;
            return Ok(Some(Token::Slash));
        }
        if c == B_CARET {
            self.pos = self.pos + 1;
            return Ok(Some(Token::Power));
        }
        if c == B_LPAREN {
            self.pos = self.pos + 1;
            return Ok(Some(Token::LParen));
        }
        if c == B_RPAREN {
            self.pos = self.pos + 1;
            return Ok(Some(Token::RParen));
        }
        if c == B_EQUAL {
            self.pos = self.pos + 1;
            return Ok(Some(Token::Equal));
        }
        if c == B_BANG {
            self.pos = self.pos + 1;
            return Ok(Some(Token::Factorial));
        }
        Err(LexError::UnrecognizedChar(c))
    }

    /// Lex the numeric literal run that starts at the cursor.
    fn lex_number(&mut self) -> (r: Result<Option<Token>, LexError>)
        requires
            old(self).wf(),
            old(self).pos < old(self).input@.len(),
            is_digit(old(self).input@[old(self).pos as int]),
        ensures
            final(self).wf(),
            final(self).input@ == old(self).input@,
            next_token_matches(
                r,
                spec_number_token(old(self).input@, old(self).pos as int),
                final(self).pos as int,
            ),
            r matches Ok(Some(_)) ==> final(self).pos > old(self).pos,
    {
        let ghost s = self.input@;
        let j = self.pos;
        proof {
            lemma_num_run(s, j as int);
        }
        let mut k: usize = self.pos;
        while k < self.input.len() && byte_is_num_char(self.input[k])
            invariant
                j <= k <= s.len(),
                self.input@ == s,
                self.pos == j,
                old(self).input@ == s,
                old(self).pos == j,
                num_run_end(s, k as int) == num_run_end(s, j as int),
            decreases s.len() - k,
        {
            k = k + 1;
        }
        let ghost r_run = s.subrange(j as int, k as int);
        proof {
            assert(num_run_end(s, k as int) == k);
            lemma_num_run(s, j as int);
            assert(num_run_end(s, j as int) == num_run_end(s, (j + 1) as int));
            lemma_num_run(s, (j + 1) as int);
            assert(k > j);
        }
        // validity scan: count the dots
        let mut dots: usize = 0;
        let mut idx: usize = j;
        while idx < k
            invariant
                j < k <= s.len(),
                j <= idx <= k,
                self.input@ == s,
                self.pos == j,
                old(self).input@ == s,
                old(self).pos == j,
                r_run == s.subrange(j as int, k as int),
                num_run_end(s, j as int) == k,
                dots <= idx - j,
                dots == dot_count(s.subrange(j as int, idx as int)),
            decreases k - idx,
        {
            let ghost p = s.subrange(j as int, idx as int);
            proof {
                assert(s.subrange(j as int, (idx + 1) as int) =~= p.push(s[idx as int]));
                assert(s.subrange(j as int, (idx + 1) as int).drop_last() =~= p);
            }
            if self.input[idx] == B_DOT {
                dots = dots + 1;
            }
            idx = idx + 1;
        }
        proof {
            assert(s.subrange(j as int, idx as int) =~= r_run);
            assert(r_run[r_run.len() - 1] == s[k - 1]);
        }
        if dots > 1 || !byte_is_digit(self.input[k - 1]) {
            self.pos = k;
            return Err(LexError::MalformedNumber);
        }
        assert(valid_number_run(r_run));
        // value scan
        let mut num: i64 = 0;
        let mut den: i64 = 1;
        let mut seen_dot: bool = false;
        idx = j;
        while idx < k
            invariant
                j < k <= s.len(),
                j <= idx <= k,
                self.input@ == s,
                self.pos == j,
                old(self).input@ == s,
                old(self).pos == j,
                r_run == s.subrange(j as int, k as int),
                num_run_end(s, j as int) == k,
                valid_number_run(r_run),
                0 <= num,
                1 <= den,
                num as int == lit_num(s.subrange(j as int, idx as int)),
                den as int == lit_den(s.subrange(j as int, idx as int)),
                seen_dot == (first_dot(s.subrange(j as int, idx as int)) < idx - j),
            decreases k - idx,
        {
            let ghost p = s.subrange(j as int, idx as int);
            let ghost q = s.subrange(j as int, (idx + 1) as int);
            proof {
                lemma_num_run(s, j as int);
                assert(is_num_char(s[idx as int]));
                assert(q =~= p.push(s[idx as int]));
                assert(q.drop_last() =~= p);
                assert(q.last() == s[idx as int]);
            }
            let c = self.input[idx];
            if c == B_DOT {
                proof {
                    assert(!is_digit(q.last()));
                    assert(digits_of(q) == digits_of(p));
                    assert(frac_len(q) == frac_len(p));
                    assert(first_dot(q) < q.len());
                }
                seen_dot = true;
            } else {
                proof {
                    assert(is_digit(c));
                    assert(digits_of(q) == digits_of(p).push(c));
                    assert((digits_of(p).push(c)).drop_last() =~= digits_of(p));
                    assert((digits_of(p).push(c)).last() == c);
                    assert(lit_num(q) == lit_num(p) * 10 + (c - B_ZERO));
                }
                let d_val: u8 = c - B_ZERO;
                let nn: i128 = (num as i128) * 10 + (d_val as i128);
                if nn > i64::MAX as i128 {
                    self.pos = k;
                    proof {
                        assert(lit_num(q) == nn);
                        assert(r_run.subrange(0, (idx + 1 - j) as int) =~= q);
                        lemma_lit_prefix(r_run, (idx + 1 - j) as int);
                    }
                    return Err(LexError::NumberTooLarge);
                }
                num = nn as i64;
                if seen_dot {
                    proof {
                        assert(frac_len(q) == frac_len(p) + 1);
                        assert(lit_den(q) == 10 * lit_den(p));
                    }
                    let dd: i128 = (den as i128) * 10;
                    if dd > i64::MAX as i128 {
                        self.pos = k;
                        proof {
                            assert(lit_den(q) == dd);
                            assert(r_run.subrange(0, (idx + 1 - j) as int) =~= q);
                            lemma_lit_prefix(r_run, (idx + 1 - j) as int);
                            lemma_pow10_mono(frac_len(q), frac_len(r_run));
                        }
                        return Err(LexError::NumberTooLarge);
                    }
                    den = dd as i64;
                } else {
                    proof {
                        assert(frac_len(q) == frac_len(p));
                        assert(first_dot(q) == q.len() as int);
                    }
                }
            }
            idx = idx + 1;
        }
        proof {
            assert(s.subrange(j as int, idx as int) =~= r_run);
        }
        self.pos = k;
        Ok(Some(Token::Number(Rat { num, den })))
    }

    /// Lex the identifier or keyword run that starts at the cursor.
    fn lex_word(&mut self) -> (r: Result<Option<Token>, LexError>)
        requires
            old(self).wf(),
            old(self).pos < old(self).input@.len(),
            is_alpha(old(self).input@[old(self).pos as int]),
        ensures
            final(self).wf(),
            final(self).input@ == old(self).input@,
            next_token_matches(
                r,
                spec_word_token(old(self).input@, old(self).pos as int),
                final(self).pos as int,
            ),
            r matches Ok(Some(_)) ==> final(self).pos > old(self).pos,
    {
        let ghost s = self.input@;
        let j = self.pos;
        let mut k: usize = self.pos;
        while k < self.input.len() && byte_is_alnum(self.input[k])
            invariant
                j <= k <= s.len(),
                self.input@ == s,
                self.pos == j,
                old(self).input@ == s,
                old(self).pos == j,
                ident_run_end(s, k as int) == ident_run_end(s, j as int),
            decreases s.len() - k,
        {
            k = k + 1;
        }
        let ghost w = s.subrange(j as int, k as int);
        proof {
            assert(ident_run_end(s, k as int) == k);
            assert(ident_run_end(s, j as int) == ident_run_end(s, (j + 1) as int));
            lemma_ident_run(s, (j + 1) as int);
            assert(k > j);
        }
        self.pos = k;
        if k - j == 5 && self.input[j] == B_P && self.input[j + 1] == B_R && self.input[j + 2]
            == B_I && self.input[j + 3] == B_N && self.input[j + 4] == B_T {
            proof {
                assert(w =~= print_kw());
            }
            Ok(Some(Token::Print))
        } else {
            proof {
                if w == print_kw() {
                    assert(w.len() == 5);
                    assert(w[0] == B_P && w[1] == B_R && w[2] == B_I && w[3] == B_N && w[4]
                        == B_T);
                }
            }
            let name = bytes_range(&self.input, j, k);
            Ok(Some(Token::Identifier(name)))
        }
    }
}

/// How a whole lexing run relates to its specification.
pub open spec fn lex_matches(
    r: Result<Vec<Token>, LexError>,
    s: Result<Seq<TokenView>, LexError>,
) -> bool {
    match (r, s) {
        (Ok(ts), Ok(tvs)) => crate::enums::token_views(ts@) == tvs,
        (Err(e1), Err(e2)) => e1 == e2,
        _ => false,
    }
}

/// Tokenize a whole source text, or report the first lexing error.
pub fn lex(input: &Vec<u8>) -> (r: Result<Vec<Token>, LexError>)
    ensures
        lex_matches(r, spec_lex(input@, 0)),
{
    let ghost s = input@;
    let mut lx = Lexer::new(crate::bytes::clone_bytes(input));
    let mut toks: Vec<Token> = Vec::new();
    loop
        invariant
            s == input@,
            lx.wf(),
            lx.input@ == s,
            match spec_lex(s, lx.pos as int) {
                Ok(rest) => spec_lex(s, 0) == Ok::<Seq<TokenView>, LexError>(
                    crate::enums::token_views(toks@) + rest,
                ),
                Err(e) => spec_lex(s, 0) == Err::<Seq<TokenView>, LexError>(e),
            },
        decreases s.len() - lx.pos,
    {
        let ghost pos0 = lx.pos as int;
        match lx.next_token() {
            Err(e) => {
                return Err(e);
            },
            Ok(None) => {
                proof {
                    assert(crate::enums::token_views(toks@) + Seq::<TokenView>::empty()
                        =~= crate::enums::token_views(toks@));
                }
                return Ok(toks);
            },
            Ok(Some(t)) => {
                proof {
                    let tv = t@;
                    assert(spec_lex(s, pos0) == (match spec_lex(s, lx.pos as int) {
                        Err(e) => Err::<Seq<TokenView>, LexError>(e),
                        Ok(rest) => Ok(seq![tv] + rest),
                    }));
                    assert(crate::enums::token_views(toks@.push(t)) =~= crate::enums::token_views(
                        toks@,
                    ) + seq![tv]);
                    if spec_lex(s, lx.pos as int) is Ok {
                        let rest = spec_lex(s, lx.pos as int)->Ok_0;
                        assert(crate::enums::token_views(toks@) + (seq![tv] + rest)
                            =~= (crate::enums::token_views(toks@) + seq![tv]) + rest);
                    }
                }
                toks.push(t);
            },
        }
    }
}

} // verus!
