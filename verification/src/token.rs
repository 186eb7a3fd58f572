//! Token categories, their patterns, and the `Token` value produced by the
//! matcher.
use vstd::prelude::*;
use vstd::string::StringSliceAdditionalSpecFns;

verus! {

/// The fixed set of token categories. The declaration order is significant:
/// when two categories match the same maximal length, the one declared
/// earlier wins (see `matcher`).
#[derive(Clone, Copy, PartialEq, Eq, Structural, Debug)]
pub enum TokenKind {
    At,
    Locf,
    Lerp,
    Within,
    Mirroring,
    UnixTimestamp,
    ISO8601Timestamp,
    TimeInterval,
    Identifier,
    Number,
    SingleLineString,
    MultiLineString,
    OpenBracket,
    CloseBracket,
    OpenParen,
    CloseParen,
    SingleLineComment,
    MultiLineComment,
    Comma,
    Plus,
    Minus,
    Asterisk,
    Slash,
    Power,
    Semicolon,
    Assign,
    WhiteSpace,
    Unmatched,
}

/// Number of token categories.
pub const NUM_KINDS: usize = 28;

/// The category declared at position `i` of the fixed enumeration order.
pub open spec fn spec_kind_at(i: int) -> TokenKind {
    if i == 0 { TokenKind::At }
    else if i == 1 { TokenKind::Locf }
    else if i == 2 { TokenKind::Lerp }
    else if i == 3 { TokenKind::Within }
    else if i == 4 { TokenKind::Mirroring }
    else if i == 5 { TokenKind::UnixTimestamp }
    else if i == 6 { TokenKind::ISO8601Timestamp }
    else if i == 7 { TokenKind::TimeInterval }
    else if i == 8 { TokenKind::Identifier }
    else if i == 9 { TokenKind::Number }
    else if i == 10 { TokenKind::SingleLineString }
    else if i == 11 { TokenKind::MultiLineString }
    else if i == 12 { TokenKind::OpenBracket }
    else if i == 13 { TokenKind::CloseBracket }
    else if i == 14 { TokenKind::OpenParen }
    else if i == 15 { TokenKind::CloseParen }
    else if i == 16 { TokenKind::SingleLineComment }
    else if i == 17 { TokenKind::MultiLineComment }
    else if i == 18 { TokenKind::Comma }
    else if i == 19 { TokenKind::Plus }
    else if i == 20 { TokenKind::Minus }
    else if i == 21 { TokenKind::Asterisk }
    else if i == 22 { TokenKind::Slash }
    else if i == 23 { TokenKind::Power }
    else if i == 24 { TokenKind::Semicolon }
    else if i == 25 { TokenKind::Assign }
    else if i == 26 { TokenKind::WhiteSpace }
    else { TokenKind::Unmatched }
}

/// Executable lookup of the category declared at position `i`.
pub fn kind_at(i: usize) -> (k: TokenKind)
    requires
        i < NUM_KINDS,
    ensures
        k == spec_kind_at(i as int),
{
    if i == 0 { TokenKind::At }
    else if i == 1 { TokenKind::Locf }
    else if i == 2 { TokenKind::Lerp }
    else if i == 3 { TokenKind::Within }
    else if i == 4 { TokenKind::Mirroring }
    else if i == 5 { TokenKind::UnixTimestamp }
    else if i == 6 { TokenKind::ISO8601Timestamp }
    else if i == 7 { TokenKind::TimeInterval }
    else if i == 8 { TokenKind::Identifier }
    else if i == 9 { TokenKind::Number }
    else if i == 10 { TokenKind::SingleLineString }
    else if i == 11 { TokenKind::MultiLineString }
    else if i == 12 { TokenKind::OpenBracket }
    else if i == 13 { TokenKind::CloseBracket }
    else if i == 14 { TokenKind::OpenParen }
    else if i == 15 { TokenKind::CloseParen }
    else if i == 16 { TokenKind::SingleLineComment }
    else if i == 17 { TokenKind::MultiLineComment }
    else if i == 18 { TokenKind::Comma }
    else if i == 19 { TokenKind::Plus }
    else if i == 20 { TokenKind::Minus }
    else if i == 21 { TokenKind::Asterisk }
    else if i == 22 { TokenKind::Slash }
    else if i == 23 { TokenKind::Power }
    else if i == 24 { TokenKind::Semicolon }
    else if i == 25 { TokenKind::Assign }
    else if i == 26 { TokenKind::WhiteSpace }
    else { TokenKind::Unmatched }
}

/// One token: the exact bytes consumed from the source, and the category
/// that matched them. Immutable after creation and owned independently of
/// the source.
#[derive(Debug)]
pub struct Token {
    pub lexeme: Vec<u8>,
    pub kind: TokenKind,
}

impl Token {
    /// Builds a token from its lexeme and category.
    pub fn new(lexeme: Vec<u8>, kind: TokenKind) -> (t: Token)
        ensures
            t.lexeme == lexeme,
            t.kind == kind,
    {
        Token { lexeme, kind }
    }

    /// Renders the token for display: the lexeme with line breaks and tabs
    /// escaped, followed by the category name.
    pub fn to_string(&self) -> (r: Vec<u8>)
        ensures
            r@ == spec_rendering(self.lexeme@, self.kind),
    {
        let mut out: Vec<u8> = Vec::new();
        push_all(&mut out, "Token { lexeme: \"".as_bytes());
        let ghost prefix = "Token { lexeme: \"".spec_bytes();
        proof {
            assert(out@ =~= prefix + escape_bytes(self.lexeme@.subrange(0, 0)));
        }
        let mut i: usize = 0;
        while i < self.lexeme.len()
            invariant
                i <= self.lexeme@.len(),
                out@ == prefix + escape_bytes(self.lexeme@.subrange(0, i as int)),
                prefix == "Token { lexeme: \"".spec_bytes(),
            decreases self.lexeme@.len() - i,
        {
            let b = self.lexeme[i];
            if b == crate::matcher::B_LF {
                out.push(crate::matcher::B_BACKSLASH);
                out.push(crate::matcher::B_LOW_N);
            } else if b == crate::matcher::B_TAB {
                out.push(crate::matcher::B_BACKSLASH);
                out.push(crate::matcher::B_LOW_T);
            } else {
                out.push(b);
            }
            proof {
                let t = self.lexeme@.subrange(0, i + 1);
                assert(t.drop_last() =~= self.lexeme@.subrange(0, i as int));
                assert(t.last() == self.lexeme@[i as int]);
                assert(out@ =~= prefix + escape_bytes(t));
            }
            i = i + 1;
        }
        proof {
            assert(self.lexeme@.subrange(0, self.lexeme@.len() as int) =~= self.lexeme@);
        }
        push_all(&mut out, "\", kind: ".as_bytes());
        match self.kind {
            TokenKind::At => push_all(&mut out, "At".as_bytes()),
            TokenKind::Locf => push_all(&mut out, "Locf".as_bytes()),
            TokenKind::Lerp => push_all(&mut out, "Lerp".as_bytes()),
            TokenKind::Within => push_all(&mut out, "Within".as_bytes()),
            TokenKind::Mirroring => push_all(&mut out, "Mirroring".as_bytes()),
            TokenKind::UnixTimestamp => push_all(&mut out, "UnixTimestamp".as_bytes()),
            TokenKind::ISO8601Timestamp => push_all(&mut out, "ISO8601Timestamp".as_bytes()),
            TokenKind::TimeInterval => push_all(&mut out, "TimeInterval".as_bytes()),
            TokenKind::Identifier => push_all(&mut out, "Identifier".as_bytes()),
            TokenKind::Number => push_all(&mut out, "Number".as_bytes()),
            TokenKind::SingleLineString => push_all(&mut out, "SingleLineString".as_bytes()),
            TokenKind::MultiLineString => push_all(&mut out, "MultiLineString".as_bytes()),
            TokenKind::OpenBracket => push_all(&mut out, "OpenBracket".as_bytes()),
            TokenKind::CloseBracket => push_all(&mut out, "CloseBracket".as_bytes()),
            TokenKind::OpenParen => push_all(&mut out, "OpenParen".as_bytes()),
            TokenKind::CloseParen => push_all(&mut out, "CloseParen".as_bytes()),
            TokenKind::SingleLineComment => push_all(&mut out, "SingleLineComment".as_bytes()),
            TokenKind::MultiLineComment => push_all(&mut out, "MultiLineComment".as_bytes()),
            TokenKind::Comma => push_all(&mut out, "Comma".as_bytes()),
            TokenKind::Plus => push_all(&mut out, "Plus".as_bytes()),
            TokenKind::Minus => push_all(&mut out, "Minus".as_bytes()),
            TokenKind::Asterisk => push_all(&mut out, "Asterisk".as_bytes()),
            TokenKind::Slash => push_all(&mut out, "Slash".as_bytes()),
            TokenKind::Power => push_all(&mut out, "Power".as_bytes()),
            TokenKind::Semicolon => push_all(&mut out, "Semicolon".as_bytes()),
            TokenKind::Assign => push_all(&mut out, "Assign".as_bytes()),
            TokenKind::WhiteSpace => push_all(&mut out, "WhiteSpace".as_bytes()),
            TokenKind::Unmatched => push_all(&mut out, "Unmatched".as_bytes()),
        }
        push_all(&mut out, " }".as_bytes());
        proof {
            assert(out@ =~= spec_rendering(self.lexeme@, self.kind));
        }
        out
    }
}

/// How one lexeme byte is shown: line breaks and tabs become two-byte
/// escapes, every other byte stands for itself.
pub open spec fn escape_byte(b: u8) -> Seq<u8> {
    if b == crate::matcher::B_LF {
        seq![crate::matcher::B_BACKSLASH, crate::matcher::B_LOW_N]
    } else if b == crate::matcher::B_TAB {
        seq![crate::matcher::B_BACKSLASH, crate::matcher::B_LOW_T]
    } else {
        seq![b]
    }
}

/// The lexeme with every byte shown as `escape_byte` shows it.
pub open spec fn escape_bytes(s: Seq<u8>) -> Seq<u8>
    decreases s.len(),
{
    if s.len() == 0 {
        Seq::empty()
    } else {
        escape_bytes(s.drop_last()) + escape_byte(s.last())
    }
}

/// The display name of each category.
pub open spec fn spec_kind_name(kind: TokenKind) -> Seq<u8> {
    match kind {
        TokenKind::At => "At".spec_bytes(),
        TokenKind::Locf => "Locf".spec_bytes(),
        TokenKind::Lerp => "Lerp".spec_bytes(),
        TokenKind::Within => "Within".spec_bytes(),
        TokenKind::Mirroring => "Mirroring".spec_bytes(),
        TokenKind::UnixTimestamp => "UnixTimestamp".spec_bytes(),
        TokenKind::ISO8601Timestamp => "ISO8601Timestamp".spec_bytes(),
        TokenKind::TimeInterval => "TimeInterval".spec_bytes(),
        TokenKind::Identifier => "Identifier".spec_bytes(),
        TokenKind::Number => "Number".spec_bytes(),
        TokenKind::SingleLineString => "SingleLineString".spec_bytes(),
        TokenKind::MultiLineString => "MultiLineString".spec_bytes(),
        TokenKind::OpenBracket => "OpenBracket".spec_bytes(),
        TokenKind::CloseBracket => "CloseBracket".spec_bytes(),
        TokenKind::OpenParen => "OpenParen".spec_bytes(),
        TokenKind::CloseParen => "CloseParen".spec_bytes(),
        TokenKind::SingleLineComment => "SingleLineComment".spec_bytes(),
        TokenKind::MultiLineComment => "MultiLineComment".spec_bytes(),
        TokenKind::Comma => "Comma".spec_bytes(),
        TokenKind::Plus => "Plus".spec_bytes(),
        TokenKind::Minus => "Minus".spec_bytes(),
        TokenKind::Asterisk => "Asterisk".spec_bytes(),
        TokenKind::Slash => "Slash".spec_bytes(),
        TokenKind::Power => "Power".spec_bytes(),
        TokenKind::Semicolon => "Semicolon".spec_bytes(),
        TokenKind::Assign => "Assign".spec_bytes(),
        TokenKind::WhiteSpace => "WhiteSpace".spec_bytes(),
        TokenKind::Unmatched => "Unmatched".spec_bytes(),
    }
}

/// The display rendering of a token: its escaped lexeme in quotes, then its
/// category name.
pub open spec fn spec_rendering(lexeme: Seq<u8>, kind: TokenKind) -> Seq<u8> {
    "Token { lexeme: \"".spec_bytes() + escape_bytes(lexeme) + "\", kind: ".spec_bytes()
        + spec_kind_name(kind) + " }".spec_bytes()
}

fn push_all(out: &mut Vec<u8>, src: &[u8])
    ensures
        final(out)@ == old(out)@ + src@,
{
    proof {
        assert(out@ =~= out@ + src@.subrange(0, 0));
    }
    let mut i: usize = 0;
    while i < src.len()
        invariant
            i <= src@.len(),
            out@ == old(out)@ + src@.subrange(0, i as int),
        decreases src@.len() - i,
    {
        out.push(src[i]);
        proof {
            assert(old(out)@ + src@.subrange(0, i + 1) =~= (old(out)@ + src@.subrange(
                0,
                i as int,
            )).push(src@[i as int]));
        }
        i = i + 1;
    }
    proof {
        assert(src@.subrange(0, src@.len() as int) =~= src@);
    }
}

/// The pattern text associated with each category, as `get_token_kind_pattern`
/// returns it.
pub open spec fn spec_kind_pattern(kind: TokenKind) -> Seq<char> {
    match kind {
        TokenKind::At => "at|@"@,
        TokenKind::Locf => "locf"@,
        TokenKind::Lerp => "lerp"@,
        TokenKind::Within => "within"@,
        TokenKind::Mirroring => "mirroring"@,
        TokenKind::UnixTimestamp => "ut\\d+"@,
        TokenKind::ISO8601Timestamp => "\\d{4}-\\d{2}-\\d{2}T\\d{2}:\\d{2}:\\d{2}-\\d{2}:\\d{2}"@,
        TokenKind::TimeInterval => "\\d+[smhd]"@,
        TokenKind::Identifier => "[a-zA-Z0-9_]+"@,
        TokenKind::Number => "\\d+(\\.\\d+)?([eE][+-]?\\d+)?"@,
        TokenKind::SingleLineString => "\"[^\"]*\"?"@,
        TokenKind::MultiLineString => "\"\"\"[^\"]*(\"\"\")?"@,
        TokenKind::OpenBracket => "\\["@,
        TokenKind::CloseBracket => "\\]"@,
        TokenKind::OpenParen => "\\("@,
        TokenKind::CloseParen => "\\)"@,
        TokenKind::SingleLineComment => "//.*"@,
        TokenKind::MultiLineComment => "(?s)/\\*.*?\\*/|/\\*.*"@,
        TokenKind::Comma => ","@,
        TokenKind::Plus => "\\+"@,
        TokenKind::Minus => "\\-"@,
        TokenKind::Asterisk => "\\*"@,
        TokenKind::Slash => "\\/"@,
        TokenKind::Power => "\\*\\*"@,
        TokenKind::Semicolon => ";"@,
        TokenKind::Assign => "="@,
        TokenKind::WhiteSpace => "\\s+"@,
        TokenKind::Unmatched => "."@,
    }
}

/// The anchored pattern associated with each category, written as a regular
/// expression over bytes. The table is documentation of the grammar the
/// matcher implements; `matcher::spec_match_len` is its exact meaning.
/// `[^"]` includes line breaks; `.` excludes them, except that the
/// catch-all `Unmatched` takes any single byte; `\s` is ASCII whitespace.
/// The optional closing delimiters of string and block-comment literals let
/// an unterminated literal be matched and then rejected by validation.
pub fn get_token_kind_pattern(kind: &TokenKind) -> (r: &'static str)
    ensures
        r@ == spec_kind_pattern(*kind),
{
    match kind {
        TokenKind::At => r"at|@",
        TokenKind::Locf => r"locf",
        TokenKind::Lerp => r"lerp",
        TokenKind::Within => r"within",
        TokenKind::Mirroring => r"mirroring",
        TokenKind::UnixTimestamp => r"ut\d+",
        TokenKind::ISO8601Timestamp => r"\d{4}-\d{2}-\d{2}T\d{2}:\d{2}:\d{2}-\d{2}:\d{2}",
        TokenKind::TimeInterval => r"\d+[smhd]",
        TokenKind::Identifier => r"[a-zA-Z0-9_]+",
        TokenKind::Number => r"\d+(\.\d+)?([eE][+-]?\d+)?",
        TokenKind::SingleLineString => r#""[^"]*"?"#,
        TokenKind::MultiLineString => r#""""[^"]*(""")?"#,
        TokenKind::OpenBracket => r"\[",
        TokenKind::CloseBracket => r"\]",
        TokenKind::OpenParen => r"\(",
        TokenKind::CloseParen => r"\)",
        TokenKind::SingleLineComment => r"//.*",
        TokenKind::MultiLineComment => r"(?s)/\*.*?\*/|/\*.*",
        TokenKind::Comma => r",",
        TokenKind::Plus => r"\+",
        TokenKind::Minus => r"\-",
        TokenKind::Asterisk => r"\*",
        TokenKind::Slash => r"\/",
        TokenKind::Power => r"\*\*",
        TokenKind::Semicolon => r";",
        TokenKind::Assign => r"=",
        TokenKind::WhiteSpace => r"\s+",
        TokenKind::Unmatched => r".",
    }
}

} // verus!
