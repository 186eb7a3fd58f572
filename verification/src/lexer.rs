//! The tokenizer driver: repeated maximal-munch matching over the whole
//! source, per-token validation, and line/column provenance for every
//! rejected token.
use vstd::prelude::*;

use crate::matcher::B_D0;
use crate::matcher::B_D9;
use crate::matcher::B_LF;
use crate::matcher::B_QUOTE;
use crate::matcher::B_SLASH;
use crate::matcher::B_STAR;
use crate::matcher::B_TAB;
use crate::matcher::B_BACKSLASH;
use crate::matcher::B_LOW_N;
use crate::matcher::B_LOW_R;
use crate::matcher::B_LOW_T;
use crate::matcher::get_next_token;
use crate::matcher::is_digit;
use crate::matcher::lemma_winner_bounds;
use crate::matcher::spec_winner;
use crate::token::Token;
use crate::token::TokenKind;

verus! {

/// Why one token was rejected by validation.
#[derive(Clone, Copy, PartialEq, Eq, Structural, Debug)]
pub enum LexErrorKind {
    /// The catch-all `Unmatched` category: an unknown byte.
    UnknownToken,
    /// A single-line string with a line break inside it.
    StringContainsNewline,
    /// A string literal without its closing delimiter.
    StringNotClosed,
    /// A backslash escape outside the `\n \t \r \" \\` whitelist.
    InvalidEscapeSequence,
    /// A block comment without its closing `*/`.
    CommentNotClosed,
    /// An identifier whose first byte is a decimal digit.
    IdentifierStartsWithNumber,
}

/// A per-token validation failure, with the line and column of the start of
/// the offending token.
#[derive(Clone, Copy, PartialEq, Eq, Structural, Debug)]
pub struct LexError {
    pub line: usize,
    pub column: usize,
    pub kind: LexErrorKind,
}

/// Does `s` contain the byte `b`?
pub open spec fn contains_byte(s: Seq<u8>, b: u8) -> bool {
    exists|i: int| 0 <= i < s.len() && s[i] == b
}

/// A byte allowed after a backslash: one of `n t r " \`.
pub open spec fn is_escape_char(b: u8) -> bool {
    b == B_LOW_N || b == B_LOW_T || b == B_LOW_R || b == B_QUOTE || b == B_BACKSLASH
}

/// Every backslash at or after `i` starts a whitelisted two-byte escape.
pub open spec fn escapes_ok(s: Seq<u8>, i: int) -> bool
    decreases s.len() - i,
{
    if i < 0 || i >= s.len() {
        true
    } else if s[i] == B_BACKSLASH {
        i + 1 < s.len() && is_escape_char(s[i + 1]) && escapes_ok(s, i + 2)
    } else {
        escapes_ok(s, i + 1)
    }
}

/// The first violated validation clause for a token of this category, or
/// `None` if the token is well-formed. Categories not listed here pass
/// unconditionally.
pub open spec fn spec_check(lexeme: Seq<u8>, kind: TokenKind) -> Option<LexErrorKind> {
    match kind {
        TokenKind::Unmatched => Some(LexErrorKind::UnknownToken),
        TokenKind::SingleLineString => if contains_byte(lexeme, B_LF) {
            Some(LexErrorKind::StringContainsNewline)
        } else if !(lexeme.len() >= 2 && lexeme[lexeme.len() - 1] == B_QUOTE) {
            Some(LexErrorKind::StringNotClosed)
        } else if !escapes_ok(lexeme, 0) {
            Some(LexErrorKind::InvalidEscapeSequence)
        } else {
            None
        },
        TokenKind::MultiLineString => if !(lexeme.len() >= 6 && lexeme[lexeme.len() - 1] == B_QUOTE
            && lexeme[lexeme.len() - 2] == B_QUOTE && lexeme[lexeme.len() - 3] == B_QUOTE) {
            Some(LexErrorKind::StringNotClosed)
        } else if !escapes_ok(lexeme, 0) {
            Some(LexErrorKind::InvalidEscapeSequence)
        } else {
            None
        },
        TokenKind::MultiLineComment => if !(lexeme.len() >= 4 && lexeme[lexeme.len() - 2] == B_STAR
            && lexeme[lexeme.len() - 1] == B_SLASH) {
            Some(LexErrorKind::CommentNotClosed)
        } else {
            None
        },
        TokenKind::Identifier => if lexeme.len() >= 1 && is_digit(lexeme[0]) {
            Some(LexErrorKind::IdentifierStartsWithNumber)
        } else {
            None
        },
        _ => None,
    }
}

/// A token passes validation exactly when no clause is violated.
pub open spec fn spec_valid(lexeme: Seq<u8>, kind: TokenKind) -> bool {
    spec_check(lexeme, kind).is_none()
}

/// Number of line breaks in `p` before position `pos`.
pub open spec fn spec_line_of(p: Seq<u8>, pos: int) -> int
    decreases pos,
{
    if pos <= 0 {
        0
    } else {
        spec_line_of(p, pos - 1) + if p[pos - 1] == B_LF {
            1int
        } else {
            0int
        }
    }
}

/// Position of the last line break before `pos`, or 0 if there is none.
pub open spec fn last_newline_before(p: Seq<u8>, pos: int) -> int
    decreases pos,
{
    if pos <= 0 {
        0
    } else if p[pos - 1] == B_LF {
        pos - 1
    } else {
        last_newline_before(p, pos - 1)
    }
}

/// Column of position `pos`: its offset from the last line break before it,
/// or from the start of the source on the first line.
pub open spec fn spec_col_of(p: Seq<u8>, pos: int) -> int {
    pos - last_newline_before(p, pos)
}

fn contains_byte_exec(v: &Vec<u8>, b: u8) -> (r: bool)
    ensures
        r == contains_byte(v@, b),
{
    let mut i: usize = 0;
    while i < v.len()
        invariant
            i <= v@.len(),
            forall|k: int| 0 <= k < i ==> v@[k] != b,
        decreases v@.len() - i,
    {
        if v[i] == b {
            assert(v@[i as int] == b);
            return true;
        }
        i = i + 1;
    }
    false
}

fn escapes_ok_exec(v: &Vec<u8>) -> (r: bool)
    ensures
        r == escapes_ok(v@, 0),
{
    let mut i: usize = 0;
    loop
        invariant
            i <= v@.len(),
            escapes_ok(v@, 0) == escapes_ok(v@, i as int),
        decreases v@.len() - i,
    {
        if i >= v.len() {
            return true;
        }
        if v[i] == B_BACKSLASH {
            if i + 1 >= v.len() {
                return false;
            }
            let c = v[i + 1];
            if !(c == B_LOW_N || c == B_LOW_T || c == B_LOW_R || c == B_QUOTE || c == B_BACKSLASH) {
                return false;
            }
            i = i + 2;
        } else {
            i = i + 1;
        }
    }
}

fn count_lines(p: &[u8], pos: usize) -> (r: usize)
    requires
        pos <= p@.len(),
    ensures
        r as int == spec_line_of(p@, pos as int),
{
    let mut i: usize = 0;
    let mut n: usize = 0;
    while i < pos
        invariant
            i <= pos <= p@.len(),
            n <= i,
            n as int == spec_line_of(p@, i as int),
        decreases pos - i,
    {
        if p[i] == B_LF {
            n = n + 1;
        }
        i = i + 1;
    }
    n
}

fn find_column(p: &[u8], pos: usize) -> (r: usize)
    requires
        pos <= p@.len(),
    ensures
        r as int == spec_col_of(p@, pos as int),
{
    let mut j: usize = pos;
    loop
        invariant
            j <= pos <= p@.len(),
            last_newline_before(p@, pos as int) == last_newline_before(p@, j as int),
        decreases j,
    {
        if j == 0 {
            return pos;
        }
        if p[j - 1] == B_LF {
            return pos - (j - 1);
        }
        j = j - 1;
    }
}

/// Validates one token against its category's well-formedness rules.
///
/// `program` is the whole source and `rest` the residual input after the
/// token, so the token's start is at
/// `program.len() - rest.len() - token.lexeme.len()`; a failure reports the
/// line and column of that position.
pub fn check_token(token: &Token, program: &[u8], rest: &[u8]) -> (r: Result<(), LexError>)
    requires
        token.lexeme@.len() + rest@.len() <= program@.len(),
    ensures
        r.is_ok() <==> spec_valid(token.lexeme@, token.kind),
        r matches Err(e) ==> {
            &&& spec_check(token.lexeme@, token.kind) == Some(e.kind)
            &&& e.line as int == spec_line_of(
                program@,
                program@.len() - rest@.len() - token.lexeme@.len(),
            )
            &&& e.column as int == spec_col_of(
                program@,
                program@.len() - rest@.len() - token.lexeme@.len(),
            )
        },
{
    let start: usize = program.len() - rest.len() - token.lexeme.len();
    let failure: Option<LexErrorKind> = match token.kind {
        TokenKind::Unmatched => Some(LexErrorKind::UnknownToken),
        TokenKind::SingleLineString => {
            if contains_byte_exec(&token.lexeme, B_LF) {
                Some(LexErrorKind::StringContainsNewline)
            } else if !(token.lexeme.len() >= 2 && token.lexeme[token.lexeme.len() - 1]
                == B_QUOTE) {
                Some(LexErrorKind::StringNotClosed)
            } else if !escapes_ok_exec(&token.lexeme) {
                Some(LexErrorKind::InvalidEscapeSequence)
            } else {
                None
            }
        },
        TokenKind::MultiLineString => {
            if !(token.lexeme.len() >= 6 && token.lexeme[token.lexeme.len() - 1] == B_QUOTE
                && token.lexeme[token.lexeme.len() - 2] == B_QUOTE
                && token.lexeme[token.lexeme.len() - 3] == B_QUOTE) {
                Some(LexErrorKind::StringNotClosed)
            } else if !escapes_ok_exec(&token.lexeme) {
                Some(LexErrorKind::InvalidEscapeSequence)
            } else {
                None
            }
        },
        TokenKind::MultiLineComment => {
            if !(token.lexeme.len() >= 4 && token.lexeme[token.lexeme.len() - 2] == B_STAR
                && token.lexeme[token.lexeme.len() - 1] == B_SLASH) {
                Some(LexErrorKind::CommentNotClosed)
            } else {
                None
            }
        },
        TokenKind::Identifier => {
            if token.lexeme.len() >= 1 && B_D0 <= token.lexeme[0] && token.lexeme[0] <= B_D9 {
                Some(LexErrorKind::IdentifierStartsWithNumber)
            } else {
                None
            }
        },
        _ => None,
    };
    match failure {
        None => Ok(()),
        Some(kind) => {
            let line = count_lines(program, start);
            let column = find_column(program, start);
            Err(LexError { line, column, kind })
        },
    }
}

/// The view of a token sequence: each token as its lexeme bytes and its
/// category.
pub open spec fn token_views(ts: Seq<Token>) -> Seq<(Seq<u8>, TokenKind)> {
    ts.map_values(|t: Token| (t.lexeme@, t.kind))
}

/// The view of an error sequence: line, column and failure kind of each.
pub open spec fn error_views(es: Seq<LexError>) -> Seq<(int, int, LexErrorKind)> {
    es.map_values(|e: LexError| (e.line as int, e.column as int, e.kind))
}

/// All tokens the matcher produces from position `pos` on, valid or not,
/// each as (lexeme, category).
pub open spec fn spec_raw_from(p: Seq<u8>, pos: int) -> Seq<(Seq<u8>, TokenKind)>
    decreases p.len() - pos,
{
    if pos < 0 || pos > p.len() {
        Seq::empty()
    } else {
        match spec_winner(p.subrange(pos, p.len() as int)) {
            None => Seq::empty(),
            Some((k, l)) => if 1 <= l && pos + l <= p.len() {
                seq![(p.subrange(pos, pos + l), k)] + spec_raw_from(p, pos + l)
            } else {
                Seq::empty()
            },
        }
    }
}

/// The tokens from position `pos` on that pass validation: the stream
/// `tokenize` returns.
pub open spec fn spec_valid_from(p: Seq<u8>, pos: int) -> Seq<(Seq<u8>, TokenKind)>
    decreases p.len() - pos,
{
    if pos < 0 || pos > p.len() {
        Seq::empty()
    } else {
        match spec_winner(p.subrange(pos, p.len() as int)) {
            None => Seq::empty(),
            Some((k, l)) => if 1 <= l && pos + l <= p.len() {
                let lex = p.subrange(pos, pos + l);
                let rest = spec_valid_from(p, pos + l);
                if spec_valid(lex, k) {
                    seq![(lex, k)] + rest
                } else {
                    rest
                }
            } else {
                Seq::empty()
            },
        }
    }
}

/// The validation failures from position `pos` on, in source order, each as
/// (line, column, kind) of the rejected token's start.
pub open spec fn spec_errors_from(p: Seq<u8>, pos: int) -> Seq<(int, int, LexErrorKind)>
    decreases p.len() - pos,
{
    if pos < 0 || pos > p.len() {
        Seq::empty()
    } else {
        match spec_winner(p.subrange(pos, p.len() as int)) {
            None => Seq::empty(),
            Some((k, l)) => if 1 <= l && pos + l <= p.len() {
                let lex = p.subrange(pos, pos + l);
                let rest = spec_errors_from(p, pos + l);
                match spec_check(lex, k) {
                    None => rest,
                    Some(ek) => seq![(spec_line_of(p, pos), spec_col_of(p, pos), ek)] + rest,
                }
            } else {
                Seq::empty()
            },
        }
    }
}

/// Tokenizes the whole source and also returns every validation failure,
/// in source order: the diagnostic channel of the driver, as a value.
pub fn tokenize_with_diagnostics(program: &[u8]) -> (r: (Vec<Token>, Vec<LexError>))
    ensures
        token_views(r.0@) == spec_valid_from(program@, 0),
        error_views(r.1@) == spec_errors_from(program@, 0),
{
    let mut tokens: Vec<Token> = Vec::new();
    let mut errors: Vec<LexError> = Vec::new();
    let mut pos: usize = 0;
    let mut rem: &[u8] = program;
    let program_len: usize = program.len();
    proof {
        assert(rem@ =~= program@.subrange(0, program@.len() as int));
        assert(token_views(tokens@) =~= Seq::<(Seq<u8>, TokenKind)>::empty());
        assert(error_views(errors@) =~= Seq::<(int, int, LexErrorKind)>::empty());
        assert(Seq::<(Seq<u8>, TokenKind)>::empty() + spec_valid_from(program@, 0)
            =~= spec_valid_from(program@, 0));
        assert(Seq::<(int, int, LexErrorKind)>::empty() + spec_errors_from(program@, 0)
            =~= spec_errors_from(program@, 0));
    }
    loop
        invariant
            program_len == program@.len(),
            pos <= program@.len(),
            rem@ == program@.subrange(pos as int, program@.len() as int),
            spec_valid_from(program@, 0) == token_views(tokens@) + spec_valid_from(
                program@,
                pos as int,
            ),
            spec_errors_from(program@, 0) == error_views(errors@) + spec_errors_from(
                program@,
                pos as int,
            ),
        decreases program@.len() - pos,
    {
        match get_next_token(rem) {
            None => {
                proof {
                    assert(rem@.len() == 0);
                    assert(pos == program@.len());
                    assert(spec_valid_from(program@, pos as int)
                        =~= Seq::<(Seq<u8>, TokenKind)>::empty());
                    assert(spec_errors_from(program@, pos as int)
                        =~= Seq::<(int, int, LexErrorKind)>::empty());
                    assert(token_views(tokens@) + Seq::<(Seq<u8>, TokenKind)>::empty()
                        =~= token_views(tokens@));
                    assert(error_views(errors@) + Seq::<(int, int, LexErrorKind)>::empty()
                        =~= error_views(errors@));
                }
                return (tokens, errors);
            },
            Some((token, len)) => {
                let ghost p = program@;
                let ghost posg = pos as int;
                let ghost l = len as int;
                let ghost k = token.kind;
                let ghost lex = p.subrange(posg, posg + l);
                proof {
                    lemma_winner_bounds(rem@);
                    assert(token.lexeme@ =~= lex);
                    assert(p.subrange(posg, p.len() as int).subrange(0, l) =~= lex);
                }
                let rest = vstd::slice::slice_subrange(rem, len, rem.len());
                proof {
                    assert(rest@ =~= p.subrange(posg + l, p.len() as int));
                }
                let ghost old_tokens = tokens@;
                let ghost old_errors = errors@;
                match check_token(&token, program, rest) {
                    Ok(()) => {
                        tokens.push(token);
                        proof {
                            assert(spec_valid(lex, k));
                            assert(token_views(tokens@) =~= token_views(old_tokens)
                                + seq![(lex, k)]);
                            assert(token_views(old_tokens) + (seq![(lex, k)] + spec_valid_from(
                                p,
                                posg + l,
                            )) =~= token_views(tokens@) + spec_valid_from(p, posg + l));
                        }
                    },
                    Err(e) => {
                        errors.push(e);
                        proof {
                            let ek = spec_check(lex, k).unwrap();
                            assert(e.kind == ek);
                            assert(p.len() - rest@.len() - lex.len() == posg);
                            assert(error_views(errors@) =~= error_views(old_errors)
                                + seq![(spec_line_of(p, posg), spec_col_of(p, posg), ek)]);
                            assert(error_views(old_errors) + (seq![(
                                spec_line_of(p, posg),
                                spec_col_of(p, posg),
                                ek,
                            )] + spec_errors_from(p, posg + l)) =~= error_views(errors@)
                                + spec_errors_from(p, posg + l));
                        }
                    },
                }
                proof {
                    assert(len <= rem@.len());
                    assert(pos + len <= program@.len());
                }
                pos = pos + len;
                rem = rest;
            },
        }
    }
}

/// The validation predicate on one (lexeme, category) pair.
pub open spec fn valid_token_pred() -> spec_fn((Seq<u8>, TokenKind)) -> bool {
    |t: (Seq<u8>, TokenKind)| spec_valid(t.0, t.1)
}

/// Skip and continue: the stream `tokenize` returns is exactly the
/// matcher's full token sequence with the tokens that fail validation
/// dropped — nothing else is removed, added or reordered.
pub proof fn lemma_valid_is_raw_filtered(p: Seq<u8>, pos: int)
    requires
        0 <= pos <= p.len(),
    ensures
        spec_valid_from(p, pos) == spec_raw_from(p, pos).filter(valid_token_pred()),
    decreases p.len() - pos,
{
    let pred = valid_token_pred();
    let sub = p.subrange(pos, p.len() as int);
    lemma_winner_bounds(sub);
    match spec_winner(sub) {
        None => {
            assert(spec_raw_from(p, pos) == Seq::<(Seq<u8>, TokenKind)>::empty());
            assert(spec_raw_from(p, pos).filter(pred) =~= Seq::<(Seq<u8>, TokenKind)>::empty())
                by {
                reveal_with_fuel(Seq::filter, 2);
            }
        },
        Some((k, l)) => {
            lemma_valid_is_raw_filtered(p, pos + l);
            let lex = p.subrange(pos, pos + l);
            let single = seq![(lex, k)];
            let rest = spec_raw_from(p, pos + l);
            Seq::filter_distributes_over_add(single, rest, pred);
            assert(single.drop_last() =~= Seq::<(Seq<u8>, TokenKind)>::empty());
            assert(single.filter(pred) =~= if spec_valid(lex, k) {
                single
            } else {
                Seq::<(Seq<u8>, TokenKind)>::empty()
            }) by {
                reveal_with_fuel(Seq::filter, 2);
            }
            if spec_valid(lex, k) {
                assert(spec_valid_from(p, pos) == single + spec_valid_from(p, pos + l));
            } else {
                assert(Seq::<(Seq<u8>, TokenKind)>::empty() + spec_valid_from(p, pos + l)
                    =~= spec_valid_from(p, pos + l));
            }
        },
    }
}

/// The concatenation of the lexemes of a token sequence, in order.
pub open spec fn concat_lexemes(ts: Seq<(Seq<u8>, TokenKind)>) -> Seq<u8>
    decreases ts.len(),
{
    if ts.len() == 0 {
        Seq::empty()
    } else {
        ts[0].0 + concat_lexemes(ts.drop_first())
    }
}

/// Reconstruction: concatenating the lexemes of all tokens the matcher
/// produces from `pos` on — the rejected ones included — reproduces the
/// residual source exactly; no byte is skipped or read twice.
pub proof fn lemma_reconstruction_from(p: Seq<u8>, pos: int)
    requires
        0 <= pos <= p.len(),
    ensures
        concat_lexemes(spec_raw_from(p, pos)) == p.subrange(pos, p.len() as int),
    decreases p.len() - pos,
{
    let sub = p.subrange(pos, p.len() as int);
    lemma_winner_bounds(sub);
    match spec_winner(sub) {
        None => {
            assert(concat_lexemes(spec_raw_from(p, pos)) =~= sub);
        },
        Some((k, l)) => {
            lemma_reconstruction_from(p, pos + l);
            let lex = p.subrange(pos, pos + l);
            let rest = spec_raw_from(p, pos + l);
            let whole = seq![(lex, k)] + rest;
            assert(spec_raw_from(p, pos) == whole);
            assert(whole.drop_first() =~= rest);
            assert(concat_lexemes(whole) == lex + concat_lexemes(rest));
            assert(lex + p.subrange(pos + l, p.len() as int) =~= sub);
        },
    }
}

/// Reconstruction for a whole source text.
pub proof fn lemma_reconstruction(p: Seq<u8>)
    ensures
        concat_lexemes(spec_raw_from(p, 0)) == p,
{
    lemma_reconstruction_from(p, 0);
    assert(p.subrange(0, p.len() as int) =~= p);
}

/// Idempotence: the stream `tokenize` returns is a function of the source
/// bytes alone, so two runs over the same source yield structurally
/// identical streams — no state is carried between calls.
pub proof fn lemma_tokenize_deterministic(
    p: Seq<u8>,
    r1: Seq<(Seq<u8>, TokenKind)>,
    r2: Seq<(Seq<u8>, TokenKind)>,
)
    requires
        r1 == spec_valid_from(p, 0),
        r2 == spec_valid_from(p, 0),
    ensures
        r1 == r2,
{
}

/// Tokenizes a complete source text into its ordered stream of valid
/// tokens. Tokens that fail validation are dropped; scanning always runs to
/// the end of the input.
pub fn tokenize(program: &[u8]) -> (r: Vec<Token>)
    ensures
        token_views(r@) == spec_valid_from(program@, 0),
{
    let (tokens, _errors) = tokenize_with_diagnostics(program);
    tokens
}

} // verus!
