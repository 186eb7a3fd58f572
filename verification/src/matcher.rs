//! The single-token matcher: for each category, the exact length of the
//! anchored match at the start of a residual input, and the maximal-munch
//! selection of one winning token per step.
//!
//! `spec_match_len` is the mathematical meaning of each category's pattern;
//! `spec_winner` is the selection rule: longest match first, declaration
//! order as the tie-break. `get_next_token` implements both.
use vstd::prelude::*;

use crate::token::NUM_KINDS;
use crate::token::Token;
use crate::token::TokenKind;
use crate::token::kind_at;
use crate::token::spec_kind_at;

verus! {

// The ASCII bytes the patterns mention, by name.
pub const B_TAB: u8 = 9;
pub const B_LF: u8 = 10;
pub const B_CR: u8 = 13;
pub const B_SPACE: u8 = 32;
pub const B_QUOTE: u8 = 34;
pub const B_LPAREN: u8 = 40;
pub const B_RPAREN: u8 = 41;
pub const B_STAR: u8 = 42;
pub const B_PLUS: u8 = 43;
pub const B_COMMA: u8 = 44;
pub const B_MINUS: u8 = 45;
pub const B_DOT: u8 = 46;
pub const B_SLASH: u8 = 47;
pub const B_D0: u8 = 48;
pub const B_D9: u8 = 57;
pub const B_COLON: u8 = 58;
pub const B_SEMI: u8 = 59;
pub const B_EQ: u8 = 61;
pub const B_AT_SIGN: u8 = 64;
pub const B_UP_A: u8 = 65;
pub const B_UP_E: u8 = 69;
pub const B_UP_T: u8 = 84;
pub const B_UP_Z: u8 = 90;
pub const B_LBRACKET: u8 = 91;
pub const B_RBRACKET: u8 = 93;
pub const B_BACKSLASH: u8 = 92;
pub const B_UNDERSCORE: u8 = 95;
pub const B_LOW_A: u8 = 97;
pub const B_LOW_C: u8 = 99;
pub const B_LOW_D: u8 = 100;
pub const B_LOW_E: u8 = 101;
pub const B_LOW_F: u8 = 102;
pub const B_LOW_G: u8 = 103;
pub const B_LOW_H: u8 = 104;
pub const B_LOW_I: u8 = 105;
pub const B_LOW_L: u8 = 108;
pub const B_LOW_M: u8 = 109;
pub const B_LOW_N: u8 = 110;
pub const B_LOW_O: u8 = 111;
pub const B_LOW_P: u8 = 112;
pub const B_LOW_R: u8 = 114;
pub const B_LOW_S: u8 = 115;
pub const B_LOW_T: u8 = 116;
pub const B_LOW_U: u8 = 117;
pub const B_LOW_W: u8 = 119;
pub const B_LOW_Z: u8 = 122;

/// ASCII decimal digit (`\d`).
pub open spec fn is_digit(b: u8) -> bool {
    B_D0 <= b && b <= B_D9
}

/// ASCII word byte (`[a-zA-Z0-9_]`).
pub open spec fn is_word_byte(b: u8) -> bool {
    is_digit(b) || (B_LOW_A <= b && b <= B_LOW_Z) || (B_UP_A <= b && b <= B_UP_Z) || b == B_UNDERSCORE
}

/// ASCII whitespace (`\s`): space, tab, line feed, carriage return,
/// vertical tab, form feed.
pub open spec fn is_space_byte(b: u8) -> bool {
    b == B_SPACE || b == B_TAB || b == B_LF || b == B_CR || b == 11 || b == 12
}

pub open spec fn digitp() -> spec_fn(u8) -> bool {
    |b: u8| is_digit(b)
}

pub open spec fn wordp() -> spec_fn(u8) -> bool {
    |b: u8| is_word_byte(b)
}

pub open spec fn spacep() -> spec_fn(u8) -> bool {
    |b: u8| is_space_byte(b)
}

pub open spec fn nonquotep() -> spec_fn(u8) -> bool {
    |b: u8| b != B_QUOTE
}

pub open spec fn nonnlp() -> spec_fn(u8) -> bool {
    |b: u8| b != B_LF
}

/// Length of the longest run of bytes satisfying `p` starting at `i`.
pub open spec fn run_len(s: Seq<u8>, i: int, p: spec_fn(u8) -> bool) -> int
    decreases s.len() - i,
{
    if i < 0 || i >= s.len() || !p(s[i]) {
        0
    } else {
        1 + run_len(s, i + 1, p)
    }
}

/// A run stays within bounds, every byte of it satisfies `p`, and the byte
/// just past it (if any) does not.
pub proof fn lemma_run_len(s: Seq<u8>, i: int, p: spec_fn(u8) -> bool)
    requires
        0 <= i <= s.len(),
    ensures
        0 <= run_len(s, i, p),
        i + run_len(s, i, p) <= s.len(),
        forall|j: int| i <= j < i + run_len(s, i, p) ==> p(s[j]),
        i + run_len(s, i, p) < s.len() ==> !p(s[i + run_len(s, i, p)]),
    decreases s.len() - i,
{
    if i < s.len() && p(s[i]) {
        lemma_run_len(s, i + 1, p);
    }
}

/// A stretch of `n` bytes satisfying `p`, delimited by the end of input or a
/// byte failing `p`, is exactly the run.
pub proof fn lemma_run_len_is(s: Seq<u8>, i: int, n: int, p: spec_fn(u8) -> bool)
    requires
        0 <= i,
        0 <= n,
        i + n <= s.len(),
        forall|j: int| i <= j < i + n ==> p(s[j]),
        i + n == s.len() || !p(s[i + n]),
    ensures
        run_len(s, i, p) == n,
    decreases n,
{
    if n > 0 {
        lemma_run_len_is(s, i + 1, n - 1, p);
    }
}

/// Position of the first `*/` at or after `i`, if any.
pub open spec fn mlc_close(s: Seq<u8>, i: int) -> Option<int>
    decreases s.len() - i,
{
    if i < 0 || i + 2 > s.len() {
        None
    } else if s[i] == B_STAR && s[i + 1] == B_SLASH {
        Some(i)
    } else {
        mlc_close(s, i + 1)
    }
}

pub proof fn lemma_mlc_close(s: Seq<u8>, i: int)
    requires
        0 <= i,
    ensures
        match mlc_close(s, i) {
            Some(c) => {
                &&& i <= c
                &&& c + 2 <= s.len()
                &&& s[c] == B_STAR && s[c + 1] == B_SLASH
                &&& forall|j: int| i <= j < c ==> !((#[trigger] s[j]) == B_STAR && s[j + 1] == B_SLASH)
            },
            None => forall|j: int| i <= j && j + 2 <= s.len() ==> !((#[trigger] s[j]) == B_STAR && s[j + 1] == B_SLASH),
        },
    decreases s.len() - i,
{
    if i + 2 <= s.len() && !(s[i] == B_STAR && s[i + 1] == B_SLASH) {
        lemma_mlc_close(s, i + 1);
    }
}

/// The 25-byte shape `\d{4}-\d{2}-\d{2}T\d{2}:\d{2}:\d{2}-\d{2}:\d{2}`.
pub open spec fn iso_shape(s: Seq<u8>) -> bool {
    &&& s.len() >= 25
    &&& is_digit(s[0]) && is_digit(s[1]) && is_digit(s[2]) && is_digit(s[3])
    &&& s[4] == B_MINUS
    &&& is_digit(s[5]) && is_digit(s[6])
    &&& s[7] == B_MINUS
    &&& is_digit(s[8]) && is_digit(s[9])
    &&& s[10] == B_UP_T
    &&& is_digit(s[11]) && is_digit(s[12])
    &&& s[13] == B_COLON
    &&& is_digit(s[14]) && is_digit(s[15])
    &&& s[16] == B_COLON
    &&& is_digit(s[17]) && is_digit(s[18])
    &&& s[19] == B_MINUS
    &&& is_digit(s[20]) && is_digit(s[21])
    &&& s[22] == B_COLON
    &&& is_digit(s[23]) && is_digit(s[24])
}

/// Length of the anchored match of `kind`'s pattern at the start of the
/// residual input `s`, or `None` if the pattern does not match there.
/// Greedy repetition and the backtracking of the optional `Number` groups
/// are spelled out; the optional closing delimiters of string and block
/// comment literals make an unterminated literal match up to where its
/// closing delimiter was due.
pub open spec fn spec_match_len(kind: TokenKind, s: Seq<u8>) -> Option<int> {
    match kind {
        TokenKind::At => if s.len() >= 2 && s[0] == B_LOW_A && s[1] == B_LOW_T {
            Some(2int)
        } else if s.len() >= 1 && s[0] == B_AT_SIGN {
            Some(1int)
        } else {
            None
        },
        TokenKind::Locf => if s.len() >= 4 && s[0] == B_LOW_L && s[1] == B_LOW_O && s[2] == B_LOW_C
            && s[3] == B_LOW_F {
            Some(4int)
        } else {
            None
        },
        TokenKind::Lerp => if s.len() >= 4 && s[0] == B_LOW_L && s[1] == B_LOW_E && s[2] == B_LOW_R
            && s[3] == B_LOW_P {
            Some(4int)
        } else {
            None
        },
        TokenKind::Within => if s.len() >= 6 && s[0] == B_LOW_W && s[1] == B_LOW_I && s[2] == B_LOW_T
            && s[3] == B_LOW_H && s[4] == B_LOW_I && s[5] == B_LOW_N {
            Some(6int)
        } else {
            None
        },
        TokenKind::Mirroring => if s.len() >= 9 && s[0] == B_LOW_M && s[1] == B_LOW_I && s[2] == B_LOW_R
            && s[3] == B_LOW_R && s[4] == B_LOW_O && s[5] == B_LOW_R && s[6] == B_LOW_I && s[7] == B_LOW_N
            && s[8] == B_LOW_G {
            Some(9int)
        } else {
            None
        },
        TokenKind::UnixTimestamp => if s.len() >= 2 && s[0] == B_LOW_U && s[1] == B_LOW_T
            && run_len(s, 2, digitp()) >= 1 {
            Some(2 + run_len(s, 2, digitp()))
        } else {
            None
        },
        TokenKind::ISO8601Timestamp => if iso_shape(s) {
            Some(25int)
        } else {
            None
        },
        TokenKind::TimeInterval => {
            let d = run_len(s, 0, digitp());
            if d >= 1 && d < s.len() && (s[d] == B_LOW_S || s[d] == B_LOW_M || s[d] == B_LOW_H
                || s[d] == B_LOW_D) {
                Some(d + 1)
            } else {
                None
            }
        },
        TokenKind::Identifier => {
            let w = run_len(s, 0, wordp());
            if w >= 1 {
                Some(w)
            } else {
                None
            }
        },
        TokenKind::Number => {
            let d = run_len(s, 0, digitp());
            if d >= 1 {
                Some(number_exp_end(s, number_frac_end(s, d)))
            } else {
                None
            }
        },
        TokenKind::SingleLineString => if s.len() >= 1 && s[0] == B_QUOTE {
            let c = run_len(s, 1, nonquotep());
            // the content run stops only at a quote or at the end, so the
            // byte at 1 + c, when it is in bounds, is the closing quote
            if 1 + c < s.len() {
                Some(c + 2)
            } else {
                Some(c + 1)
            }
        } else {
            None
        },
        TokenKind::MultiLineString => if s.len() >= 3 && s[0] == B_QUOTE && s[1] == B_QUOTE
            && s[2] == B_QUOTE {
            let c = run_len(s, 3, nonquotep());
            // the byte at 3 + c, when it is in bounds, is a quote for the
            // same reason, so only the two bytes after it need a look
            if 3 + c + 3 <= s.len() && s[3 + c + 1] == B_QUOTE && s[3 + c + 2] == B_QUOTE {
                Some(3 + c + 3)
            } else {
                Some(3 + c)
            }
        } else {
            None
        },
        TokenKind::OpenBracket => if s.len() >= 1 && s[0] == B_LBRACKET {
            Some(1int)
        } else {
            None
        },
        TokenKind::CloseBracket => if s.len() >= 1 && s[0] == B_RBRACKET {
            Some(1int)
        } else {
            None
        },
        TokenKind::OpenParen => if s.len() >= 1 && s[0] == B_LPAREN {
            Some(1int)
        } else {
            None
        },
        TokenKind::CloseParen => if s.len() >= 1 && s[0] == B_RPAREN {
            Some(1int)
        } else {
            None
        },
        TokenKind::SingleLineComment => if s.len() >= 2 && s[0] == B_SLASH && s[1] == B_SLASH {
            Some(2 + run_len(s, 2, nonnlp()))
        } else {
            None
        },
        TokenKind::MultiLineComment => if s.len() >= 2 && s[0] == B_SLASH && s[1] == B_STAR {
            match mlc_close(s, 2) {
                Some(c) => Some(c + 2),
                None => Some(s.len() as int),
            }
        } else {
            None
        },
        TokenKind::Comma => if s.len() >= 1 && s[0] == B_COMMA {
            Some(1int)
        } else {
            None
        },
        TokenKind::Plus => if s.len() >= 1 && s[0] == B_PLUS {
            Some(1int)
        } else {
            None
        },
        TokenKind::Minus => if s.len() >= 1 && s[0] == B_MINUS {
            Some(1int)
        } else {
            None
        },
        TokenKind::Asterisk => if s.len() >= 1 && s[0] == B_STAR {
            Some(1int)
        } else {
            None
        },
        TokenKind::Slash => if s.len() >= 1 && s[0] == B_SLASH {
            Some(1int)
        } else {
            None
        },
        TokenKind::Power => if s.len() >= 2 && s[0] == B_STAR && s[1] == B_STAR {
            Some(2int)
        } else {
            None
        },
        TokenKind::Semicolon => if s.len() >= 1 && s[0] == B_SEMI {
            Some(1int)
        } else {
            None
        },
        TokenKind::Assign => if s.len() >= 1 && s[0] == B_EQ {
            Some(1int)
        } else {
            None
        },
        TokenKind::WhiteSpace => {
            let w = run_len(s, 0, spacep());
            if w >= 1 {
                Some(w)
            } else {
                None
            }
        },
        TokenKind::Unmatched => if s.len() >= 1 {
            Some(1int)
        } else {
            None
        },
    }
}

/// End of the `Number` match after the optional fraction group `(\.\d+)?`,
/// given that the integer part ends at `d`.
pub open spec fn number_frac_end(s: Seq<u8>, d: int) -> int {
    if d < s.len() && s[d] == B_DOT && run_len(s, d + 1, digitp()) >= 1 {
        d + 1 + run_len(s, d + 1, digitp())
    } else {
        d
    }
}

/// End of the `Number` match after the optional exponent group
/// `([eE][+-]?\d+)?`, given that the mantissa ends at `n`.
pub open spec fn number_exp_end(s: Seq<u8>, n: int) -> int {
    if n < s.len() && (s[n] == B_LOW_E || s[n] == B_UP_E) {
        let m = if n + 1 < s.len() && (s[n + 1] == B_PLUS || s[n + 1] == B_MINUS) {
            n + 2
        } else {
            n + 1
        };
        if run_len(s, m, digitp()) >= 1 {
            m + run_len(s, m, digitp())
        } else {
            n
        }
    } else {
        n
    }
}

/// Every successful match consumes at least one byte and no more than the
/// whole residual input.
pub proof fn lemma_match_len_bounds(kind: TokenKind, s: Seq<u8>)
    ensures
        match spec_match_len(kind, s) {
            Some(l) => 1 <= l && l <= s.len(),
            None => true,
        },
{
    lemma_run_len(s, 0, digitp());
    lemma_run_len(s, 0, wordp());
    lemma_run_len(s, 0, spacep());
    if s.len() >= 1 {
        lemma_run_len(s, 1, nonquotep());
    }
    if s.len() >= 2 {
        lemma_run_len(s, 2, digitp());
        lemma_run_len(s, 2, nonnlp());
        lemma_mlc_close(s, 2);
    }
    if s.len() >= 3 {
        lemma_run_len(s, 3, nonquotep());
    }
    if kind == TokenKind::Number {
        let d = run_len(s, 0, digitp());
        if d >= 1 {
            let n1 = number_frac_end(s, d);
            if d < s.len() && s[d] == B_DOT {
                lemma_run_len(s, d + 1, digitp());
            }
            assert(d <= n1 <= s.len());
            if n1 < s.len() && (s[n1] == B_LOW_E || s[n1] == B_UP_E) {
                let m = if n1 + 1 < s.len() && (s[n1 + 1] == B_PLUS || s[n1 + 1] == B_MINUS) {
                    n1 + 2
                } else {
                    n1 + 1
                };
                if m <= s.len() {
                    lemma_run_len(s, m, digitp());
                }
            }
            assert(n1 <= number_exp_end(s, n1) <= s.len());
        }
    }
}

/// The best (longest, then earliest-declared) match among the first `n`
/// categories of the enumeration order.
pub open spec fn best_upto(s: Seq<u8>, n: int) -> Option<(TokenKind, int)>
    decreases n,
{
    if n <= 0 {
        None
    } else {
        let prev = best_upto(s, n - 1);
        match spec_match_len(spec_kind_at(n - 1), s) {
            None => prev,
            Some(l) => match prev {
                None => Some((spec_kind_at(n - 1), l)),
                Some((pk, pl)) => if l > pl {
                    Some((spec_kind_at(n - 1), l))
                } else {
                    prev
                },
            },
        }
    }
}

/// The winning token category and its length for residual input `s`:
/// the longest match over all categories, ties broken by declaration order.
pub open spec fn spec_winner(s: Seq<u8>) -> Option<(TokenKind, int)> {
    best_upto(s, NUM_KINDS as int)
}

pub proof fn lemma_best_upto_bounds(s: Seq<u8>, n: int)
    ensures
        match best_upto(s, n) {
            Some(p) => 1 <= p.1 && p.1 <= s.len(),
            None => true,
        },
    decreases n,
{
    if n > 0 {
        lemma_best_upto_bounds(s, n - 1);
        lemma_match_len_bounds(spec_kind_at(n - 1), s);
    }
}

/// The winner exists exactly on non-empty input, and its length is between
/// 1 and the length of the residual input.
pub proof fn lemma_winner_bounds(s: Seq<u8>)
    ensures
        spec_winner(s).is_some() <==> s.len() > 0,
        match spec_winner(s) {
            Some(p) => 1 <= p.1 && p.1 <= s.len(),
            None => true,
        },
{
    lemma_best_upto_bounds(s, NUM_KINDS as int);
    if s.len() > 0 {
        assert(spec_match_len(spec_kind_at(NUM_KINDS as int - 1), s) == Some(1int));
    }
}

/// Category `i` matches no longer than `l` here (or not at all).
pub open spec fn match_len_at_most(s: Seq<u8>, i: int, l: int) -> bool {
    match spec_match_len(spec_kind_at(i), s) {
        Some(m) => m <= l,
        None => true,
    }
}

/// Category `i` matches strictly shorter than `l` here (or not at all).
pub open spec fn match_len_below(s: Seq<u8>, i: int, l: int) -> bool {
    match spec_match_len(spec_kind_at(i), s) {
        Some(m) => m < l,
        None => true,
    }
}

/// `w` is the position of the winning category among the first `n`: it
/// attains length `l`, every category declared before it stays strictly
/// below `l`, and no category after it exceeds `l`.
pub open spec fn winner_witness(s: Seq<u8>, n: int, w: int, k: TokenKind, l: int) -> bool {
    &&& 0 <= w < n
    &&& spec_kind_at(w) == k
    &&& spec_match_len(spec_kind_at(w), s) == Some(l)
    &&& forall|j: int| 0 <= j < w ==> #[trigger] match_len_below(s, j, l)
    &&& forall|j: int| w < j < n ==> #[trigger] match_len_at_most(s, j, l)
}

proof fn lemma_best_upto_none(s: Seq<u8>, n: int)
    requires
        0 <= n,
        best_upto(s, n).is_none(),
    ensures
        forall|i: int| 0 <= i < n ==> spec_match_len(#[trigger] spec_kind_at(i), s).is_none(),
    decreases n,
{
    if n > 0 {
        lemma_best_upto_none(s, n - 1);
    }
}

proof fn lemma_best_upto_maximal(s: Seq<u8>, n: int) -> (w: int)
    requires
        0 <= n,
        best_upto(s, n).is_some(),
    ensures
        winner_witness(s, n, w, best_upto(s, n).unwrap().0, best_upto(s, n).unwrap().1),
    decreases n,
{
    let prev = best_upto(s, n - 1);
    match spec_match_len(spec_kind_at(n - 1), s) {
        None => {
            let w0 = lemma_best_upto_maximal(s, n - 1);
            let pk = prev.unwrap().0;
            let pl = prev.unwrap().1;
            assert(match_len_at_most(s, n - 1, pl));
            assert(winner_witness(s, n, w0, pk, pl));
            w0
        },
        Some(m) => {
            if prev.is_none() {
                lemma_best_upto_none(s, n - 1);
                assert forall|j: int| 0 <= j < n - 1 implies #[trigger] match_len_below(
                    s,
                    j,
                    m,
                ) by {
                    assert(spec_match_len(spec_kind_at(j), s).is_none());
                }
                assert(winner_witness(s, n, n - 1, spec_kind_at(n - 1), m));
                n - 1
            } else {
                let w0 = lemma_best_upto_maximal(s, n - 1);
                let pk = prev.unwrap().0;
                let pl = prev.unwrap().1;
                if m > pl {
                    assert forall|j: int| 0 <= j < n - 1 implies #[trigger] match_len_below(
                        s,
                        j,
                        m,
                    ) by {
                        if j < w0 {
                            assert(match_len_below(s, j, pl));
                        } else if j > w0 {
                            assert(match_len_at_most(s, j, pl));
                        }
                    }
                    assert(winner_witness(s, n, n - 1, spec_kind_at(n - 1), m));
                    n - 1
                } else {
                    assert(match_len_at_most(s, n - 1, pl));
                    assert(winner_witness(s, n, w0, pk, pl));
                    w0
                }
            }
        },
    }
}

/// Maximal munch with declaration-order tie-break: the winning category
/// attains the longest match of all categories, every category declared
/// before it matches strictly shorter here, and no category anywhere
/// matches longer. Length decides first; declaration order only breaks
/// ties. The returned value is the winner's position in the declaration
/// order.
pub proof fn lemma_winner_maximal_munch(s: Seq<u8>) -> (w: int)
    requires
        spec_winner(s).is_some(),
    ensures
        winner_witness(s, NUM_KINDS as int, w, spec_winner(s).unwrap().0, spec_winner(s).unwrap().1),
{
    lemma_best_upto_maximal(s, NUM_KINDS as int)
}

fn is_digit_exec(b: u8) -> (r: bool)
    ensures
        r == is_digit(b),
{
    B_D0 <= b && b <= B_D9
}

fn is_word_byte_exec(b: u8) -> (r: bool)
    ensures
        r == is_word_byte(b),
{
    (B_D0 <= b && b <= B_D9) || (B_LOW_A <= b && b <= B_LOW_Z) || (B_UP_A <= b && b <= B_UP_Z) || b == B_UNDERSCORE
}

fn is_space_byte_exec(b: u8) -> (r: bool)
    ensures
        r == is_space_byte(b),
{
    b == B_SPACE || b == B_TAB || b == B_LF || b == B_CR || b == 11 || b == 12
}

fn scan_digits(s: &[u8], from: usize) -> (r: usize)
    requires
        from <= s@.len(),
    ensures
        r as int == run_len(s@, from as int, digitp()),
        from + r <= s@.len(),
{
    let mut j = from;
    while j < s.len() && is_digit_exec(s[j])
        invariant
            from <= j <= s@.len(),
            forall|k: int| from <= k < j ==> is_digit(s@[k]),
        decreases s@.len() - j,
    {
        j = j + 1;
    }
    proof {
        lemma_run_len_is(s@, from as int, j - from, digitp());
    }
    j - from
}

fn scan_words(s: &[u8], from: usize) -> (r: usize)
    requires
        from <= s@.len(),
    ensures
        r as int == run_len(s@, from as int, wordp()),
        from + r <= s@.len(),
{
    let mut j = from;
    while j < s.len() && is_word_byte_exec(s[j])
        invariant
            from <= j <= s@.len(),
            forall|k: int| from <= k < j ==> is_word_byte(s@[k]),
        decreases s@.len() - j,
    {
        j = j + 1;
    }
    proof {
        lemma_run_len_is(s@, from as int, j - from, wordp());
    }
    j - from
}

fn scan_spaces(s: &[u8], from: usize) -> (r: usize)
    requires
        from <= s@.len(),
    ensures
        r as int == run_len(s@, from as int, spacep()),
        from + r <= s@.len(),
{
    let mut j = from;
    while j < s.len() && is_space_byte_exec(s[j])
        invariant
            from <= j <= s@.len(),
            forall|k: int| from <= k < j ==> is_space_byte(s@[k]),
        decreases s@.len() - j,
    {
        j = j + 1;
    }
    proof {
        lemma_run_len_is(s@, from as int, j - from, spacep());
    }
    j - from
}

fn scan_nonquotes(s: &[u8], from: usize) -> (r: usize)
    requires
        from <= s@.len(),
    ensures
        r as int == run_len(s@, from as int, nonquotep()),
        from + r <= s@.len(),
{
    let mut j = from;
    while j < s.len() && s[j] != B_QUOTE
        invariant
            from <= j <= s@.len(),
            forall|k: int| from <= k < j ==> s@[k] != B_QUOTE,
        decreases s@.len() - j,
    {
        j = j + 1;
    }
    proof {
        lemma_run_len_is(s@, from as int, j - from, nonquotep());
    }
    j - from
}

fn scan_nonnewlines(s: &[u8], from: usize) -> (r: usize)
    requires
        from <= s@.len(),
    ensures
        r as int == run_len(s@, from as int, nonnlp()),
        from + r <= s@.len(),
{
    let mut j = from;
    while j < s.len() && s[j] != B_LF
        invariant
            from <= j <= s@.len(),
            forall|k: int| from <= k < j ==> s@[k] != B_LF,
        decreases s@.len() - j,
    {
        j = j + 1;
    }
    proof {
        lemma_run_len_is(s@, from as int, j - from, nonnlp());
    }
    j - from
}

fn scan_mlc_close(s: &[u8], from: usize) -> (r: Option<usize>)
    requires
        from <= s@.len(),
    ensures
        match r {
            Some(c) => mlc_close(s@, from as int) == Some(c as int) && c + 2 <= s@.len(),
            None => mlc_close(s@, from as int).is_none(),
        },
{
    let mut j = from;
    loop
        invariant
            from <= j <= s@.len(),
            mlc_close(s@, from as int) == mlc_close(s@, j as int),
        decreases s@.len() - j,
    {
        if s.len() < 2 || j > s.len() - 2 {
            return None;
        }
        if s[j] == B_STAR && s[j + 1] == B_SLASH {
            return Some(j);
        }
        j = j + 1;
    }
}

/// Executable match of one category's pattern against the start of `s`.
pub fn match_len(kind: TokenKind, s: &[u8]) -> (r: Option<usize>)
    ensures
        r.is_some() <==> spec_match_len(kind, s@).is_some(),
        r matches Some(n) ==> spec_match_len(kind, s@) == Some(n as int),
{
    match kind {
        TokenKind::At => if s.len() >= 2 && s[0] == B_LOW_A && s[1] == B_LOW_T {
            Some(2)
        } else if s.len() >= 1 && s[0] == B_AT_SIGN {
            Some(1)
        } else {
            None
        },
        TokenKind::Locf => if s.len() >= 4 && s[0] == B_LOW_L && s[1] == B_LOW_O && s[2] == B_LOW_C
            && s[3] == B_LOW_F {
            Some(4)
        } else {
            None
        },
        TokenKind::Lerp => if s.len() >= 4 && s[0] == B_LOW_L && s[1] == B_LOW_E && s[2] == B_LOW_R
            && s[3] == B_LOW_P {
            Some(4)
        } else {
            None
        },
        TokenKind::Within => if s.len() >= 6 && s[0] == B_LOW_W && s[1] == B_LOW_I && s[2] == B_LOW_T
            && s[3] == B_LOW_H && s[4] == B_LOW_I && s[5] == B_LOW_N {
            Some(6)
        } else {
            None
        },
        TokenKind::Mirroring => if s.len() >= 9 && s[0] == B_LOW_M && s[1] == B_LOW_I && s[2] == B_LOW_R
            && s[3] == B_LOW_R && s[4] == B_LOW_O && s[5] == B_LOW_R && s[6] == B_LOW_I && s[7] == B_LOW_N
            && s[8] == B_LOW_G {
            Some(9)
        } else {
            None
        },
        TokenKind::UnixTimestamp => {
            if s.len() >= 2 && s[0] == B_LOW_U && s[1] == B_LOW_T {
                let d = scan_digits(s, 2);
                if d >= 1 {
                    Some(2 + d)
                } else {
                    None
                }
            } else {
                None
            }
        },
        TokenKind::ISO8601Timestamp => {
            if iso_check(s) {
                Some(25)
            } else {
                None
            }
        },
        TokenKind::TimeInterval => {
            let d = scan_digits(s, 0);
            if d >= 1 && d < s.len() && (s[d] == B_LOW_S || s[d] == B_LOW_M || s[d] == B_LOW_H
                || s[d] == B_LOW_D) {
                Some(d + 1)
            } else {
                None
            }
        },
        TokenKind::Identifier => {
            let w = scan_words(s, 0);
            if w >= 1 {
                Some(w)
            } else {
                None
            }
        },
        TokenKind::Number => {
            let d = scan_digits(s, 0);
            if d >= 1 {
                let n1 = if d < s.len() && s[d] == B_DOT {
                    let f = scan_digits(s, d + 1);
                    if f >= 1 {
                        d + 1 + f
                    } else {
                        d
                    }
                } else {
                    d
                };
                assert(n1 == number_frac_end(s@, d as int));
                let n2 = if n1 < s.len() && (s[n1] == B_LOW_E || s[n1] == B_UP_E) {
                    let m = if n1 + 1 < s.len() && (s[n1 + 1] == B_PLUS || s[n1 + 1] == B_MINUS) {
                        n1 + 2
                    } else {
                        n1 + 1
                    };
                    if m <= s.len() {
                        let g = scan_digits(s, m);
                        if g >= 1 {
                            m + g
                        } else {
                            n1
                        }
                    } else {
                        n1
                    }
                } else {
                    n1
                };
                assert(n2 == number_exp_end(s@, n1 as int));
                Some(n2)
            } else {
                None
            }
        },
        TokenKind::SingleLineString => {
            if s.len() >= 1 && s[0] == B_QUOTE {
                let c = scan_nonquotes(s, 1);
                if 1 + c < s.len() {
                    Some(c + 2)
                } else {
                    Some(c + 1)
                }
            } else {
                None
            }
        },
        TokenKind::MultiLineString => {
            if s.len() >= 3 && s[0] == B_QUOTE && s[1] == B_QUOTE && s[2] == B_QUOTE {
                let c = scan_nonquotes(s, 3);
                if s.len() - 3 - c >= 3 && s[3 + c + 1] == B_QUOTE && s[3 + c + 2] == B_QUOTE {
                    Some(3 + c + 3)
                } else {
                    Some(3 + c)
                }
            } else {
                None
            }
        },
        TokenKind::OpenBracket => if s.len() >= 1 && s[0] == B_LBRACKET {
            Some(1)
        } else {
            None
        },
        TokenKind::CloseBracket => if s.len() >= 1 && s[0] == B_RBRACKET {
            Some(1)
        } else {
            None
        },
        TokenKind::OpenParen => if s.len() >= 1 && s[0] == B_LPAREN {
            Some(1)
        } else {
            None
        },
        TokenKind::CloseParen => if s.len() >= 1 && s[0] == B_RPAREN {
            Some(1)
        } else {
            None
        },
        TokenKind::SingleLineComment => {
            if s.len() >= 2 && s[0] == B_SLASH && s[1] == B_SLASH {
                let c = scan_nonnewlines(s, 2);
                Some(2 + c)
            } else {
                None
            }
        },
        TokenKind::MultiLineComment => {
            if s.len() >= 2 && s[0] == B_SLASH && s[1] == B_STAR {
                match scan_mlc_close(s, 2) {
                    Some(c) => Some(c + 2),
                    None => Some(s.len()),
                }
            } else {
                None
            }
        },
        TokenKind::Comma => if s.len() >= 1 && s[0] == B_COMMA {
            Some(1)
        } else {
            None
        },
        TokenKind::Plus => if s.len() >= 1 && s[0] == B_PLUS {
            Some(1)
        } else {
            None
        },
        TokenKind::Minus => if s.len() >= 1 && s[0] == B_MINUS {
            Some(1)
        } else {
            None
        },
        TokenKind::Asterisk => if s.len() >= 1 && s[0] == B_STAR {
            Some(1)
        } else {
            None
        },
        TokenKind::Slash => if s.len() >= 1 && s[0] == B_SLASH {
            Some(1)
        } else {
            None
        },
        TokenKind::Power => if s.len() >= 2 && s[0] == B_STAR && s[1] == B_STAR {
            Some(2)
        } else {
            None
        },
        TokenKind::Semicolon => if s.len() >= 1 && s[0] == B_SEMI {
            Some(1)
        } else {
            None
        },
        TokenKind::Assign => if s.len() >= 1 && s[0] == B_EQ {
            Some(1)
        } else {
            None
        },
        TokenKind::WhiteSpace => {
            let w = scan_spaces(s, 0);
            if w >= 1 {
                Some(w)
            } else {
                None
            }
        },
        TokenKind::Unmatched => if s.len() >= 1 {
            Some(1)
        } else {
            None
        },
    }
}

fn iso_check(s: &[u8]) -> (r: bool)
    ensures
        r == iso_shape(s@),
{
    s.len() >= 25 && is_digit_exec(s[0]) && is_digit_exec(s[1]) && is_digit_exec(s[2])
        && is_digit_exec(s[3]) && s[4] == B_MINUS && is_digit_exec(s[5]) && is_digit_exec(s[6])
        && s[7] == B_MINUS && is_digit_exec(s[8]) && is_digit_exec(s[9]) && s[10] == B_UP_T
        && is_digit_exec(s[11]) && is_digit_exec(s[12]) && s[13] == B_COLON && is_digit_exec(s[14])
        && is_digit_exec(s[15]) && s[16] == B_COLON && is_digit_exec(s[17]) && is_digit_exec(s[18])
        && s[19] == B_MINUS && is_digit_exec(s[20]) && is_digit_exec(s[21]) && s[22] == B_COLON
        && is_digit_exec(s[23]) && is_digit_exec(s[24])
}

/// One step of the tokenizer: the winning token at the start of `program`
/// and the number of bytes it consumed, or `None` at end of input.
pub fn get_next_token(program: &[u8]) -> (r: Option<(Token, usize)>)
    ensures
        r.is_some() <==> spec_winner(program@).is_some(),
        r.is_some() <==> program@.len() > 0,
        r matches Some((t, n)) ==> {
            &&& spec_winner(program@) == Some((t.kind, n as int))
            &&& t.lexeme@ == program@.subrange(0, n as int)
            &&& 1 <= n <= program@.len()
        },
{
    let mut best: Option<(TokenKind, usize)> = None;
    let mut i: usize = 0;
    while i < NUM_KINDS
        invariant
            i <= NUM_KINDS,
            match best {
                None => best_upto(program@, i as int).is_none(),
                Some((bk, bl)) => best_upto(program@, i as int) == Some((bk, bl as int))
                    && bl <= program@.len(),
            },
        decreases NUM_KINDS - i,
    {
        let kind = kind_at(i);
        proof {
            lemma_match_len_bounds(spec_kind_at(i as int), program@);
        }
        match match_len(kind, program) {
            None => {},
            Some(l) => {
                match best {
                    None => {
                        best = Some((kind, l));
                    },
                    Some((_, bl)) => {
                        if l > bl {
                            best = Some((kind, l));
                        }
                    },
                }
            },
        }
        i = i + 1;
    }
    proof {
        lemma_winner_bounds(program@);
    }
    match best {
        None => None,
        Some((kind, l)) => {
            let lexeme = vstd::slice::slice_to_vec(vstd::slice::slice_subrange(program, 0, l));
            Some((Token::new(lexeme, kind), l))
        },
    }
}

} // verus!
