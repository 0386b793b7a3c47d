//! Tokenizer for GN source text. Tokens are found by maximal munch; bytes
//! between tokens are whitespace.

use vstd::prelude::*;

use crate::util::{is_continuation, is_ident_byte, is_ident_byte_exec, BACKSLASH, HASH, NEWLINE, QUOTE};

verus! {

/// Kinds of tokens.
#[derive(Clone, Copy, Debug, PartialEq, Eq, Structural)]
pub enum TokenKind {
    Identifier,
    Integer,
    /// A string closed by its quote.
    String,
    /// A string cut off by the end of its line (the newline is part of it) or of the text.
    UnterminatedString,
    /// `#` up to (not including) the end of the line.
    Comment,
    LParen,
    RParen,
    LBracket,
    RBracket,
    LBrace,
    RBrace,
    Comma,
    Dot,
    Assign,
    AddAssign,
    SubAssign,
    Plus,
    Minus,
    Not,
    Lt,
    Le,
    Gt,
    Ge,
    Eq,
    Ne,
    And,
    Or,
    /// Any other character.
    Unknown,
}

/// A token: its kind, its byte range, and whether a line break separates it
/// from the previous token (or from the start of the text).
#[derive(Clone, Copy, Debug, PartialEq, Eq, Structural)]
pub struct Token {
    pub kind: TokenKind,
    pub start: usize,
    pub end: usize,
    pub line_break_before: bool,
}

pub open spec fn is_whitespace(b: u8) -> bool {
    b == 32 || b == 9 || b == 13 || b == NEWLINE
}

pub open spec fn is_digit(b: u8) -> bool {
    48 <= b <= 57
}

pub open spec fn is_ident_start(b: u8) -> bool {
    is_ident_byte(b) && !is_digit(b)
}

/// End of the run of identifier bytes starting at `j`.
pub open spec fn ident_end(s: Seq<u8>, j: int) -> int
    decreases s.len() - j,
{
    if j < s.len() && is_ident_byte(s[j]) {
        ident_end(s, j + 1)
    } else {
        j
    }
}

/// End of the run of digits starting at `j`.
pub open spec fn digits_end(s: Seq<u8>, j: int) -> int
    decreases s.len() - j,
{
    if j < s.len() && is_digit(s[j]) {
        digits_end(s, j + 1)
    } else {
        j
    }
}

/// End of the run of continuation bytes starting at `j`.
pub open spec fn continuation_end(s: Seq<u8>, j: int) -> int
    decreases s.len() - j,
{
    if j < s.len() && is_continuation(s[j]) {
        continuation_end(s, j + 1)
    } else {
        j
    }
}

/// Offset of the first newline at or after `j`, or the end of the text.
pub open spec fn newline_from(s: Seq<u8>, j: int) -> int
    decreases s.len() - j,
{
    if j < s.len() && s[j] != NEWLINE {
        newline_from(s, j + 1)
    } else {
        j
    }
}

/// Scans the body of a string literal from `j` (just past a quote or an
/// escape): whether the literal is closed, and where it ends. A backslash
/// escapes the next byte unless that byte is a newline.
pub open spec fn string_end(s: Seq<u8>, j: int) -> (bool, int)
    decreases s.len() - j,
{
    if j < 0 || j >= s.len() {
        (false, s.len() as int)
    } else if s[j] == QUOTE {
        (true, j + 1)
    } else if s[j] == NEWLINE {
        (false, j + 1)
    } else if s[j] == BACKSLASH && j + 1 < s.len() && s[j + 1] != NEWLINE {
        string_end(s, j + 2)
    } else {
        string_end(s, j + 1)
    }
}

/// Token kinds of one-byte punctuation, when `b` is one.
pub open spec fn single_punct(b: u8) -> Option<TokenKind> {
    if b == 40 {
        Some(TokenKind::LParen)
    } else if b == 41 {
        Some(TokenKind::RParen)
    } else if b == 91 {
        Some(TokenKind::LBracket)
    } else if b == 93 {
        Some(TokenKind::RBracket)
    } else if b == 123 {
        Some(TokenKind::LBrace)
    } else if b == 125 {
        Some(TokenKind::RBrace)
    } else if b == 44 {
        Some(TokenKind::Comma)
    } else if b == 46 {
        Some(TokenKind::Dot)
    } else {
        None
    }
}

/// Operators of one or two bytes: `=`, `+`, `-`, `!`, `<`, `>` optionally
/// followed by `=`, and `&&`, `||`.
pub open spec fn operator(b: u8, next: Option<u8>) -> Option<(TokenKind, int)> {
    let eq = next == Some(61u8);
    if b == 61 {
        Some(if eq { (TokenKind::Eq, 2int) } else { (TokenKind::Assign, 1int) })
    } else if b == 43 {
        Some(if eq { (TokenKind::AddAssign, 2int) } else { (TokenKind::Plus, 1int) })
    } else if b == 45 {
        Some(if eq { (TokenKind::SubAssign, 2int) } else { (TokenKind::Minus, 1int) })
    } else if b == 33 {
        Some(if eq { (TokenKind::Ne, 2int) } else { (TokenKind::Not, 1int) })
    } else if b == 60 {
        Some(if eq { (TokenKind::Le, 2int) } else { (TokenKind::Lt, 1int) })
    } else if b == 62 {
        Some(if eq { (TokenKind::Ge, 2int) } else { (TokenKind::Gt, 1int) })
    } else if b == 38 && next == Some(38u8) {
        Some((TokenKind::And, 2int))
    } else if b == 124 && next == Some(124u8) {
        Some((TokenKind::Or, 2int))
    } else {
        None
    }
}

/// The longest token starting at `i`, as its kind and end.
pub open spec fn scan(s: Seq<u8>, i: int) -> (TokenKind, int) {
    let b = s[i];
    let next = if i + 1 < s.len() { Some(s[i + 1]) } else { None };
    if is_ident_start(b) {
        (TokenKind::Identifier, ident_end(s, i))
    } else if is_digit(b) {
        (TokenKind::Integer, digits_end(s, i))
    } else if b == QUOTE {
        let (closed, end) = string_end(s, i + 1);
        (if closed { TokenKind::String } else { TokenKind::UnterminatedString }, end)
    } else if b == HASH {
        (TokenKind::Comment, newline_from(s, i))
    } else if single_punct(b) is Some {
        (single_punct(b).unwrap(), i + 1)
    } else if operator(b, next) is Some {
        let (kind, n) = operator(b, next).unwrap();
        (kind, i + n)
    } else {
        (TokenKind::Unknown, continuation_end(s, i + 1))
    }
}

pub open spec fn all_whitespace(s: Seq<u8>, a: int, b: int) -> bool {
    forall|k: int| a <= k < b ==> is_whitespace(#[trigger] s[k])
}

pub open spec fn has_newline(s: Seq<u8>, a: int, b: int) -> bool {
    exists|k: int| a <= k < b && #[trigger] s[k] == NEWLINE
}

/// End of the token before token `k` (0 for the first).
pub open spec fn prev_end(toks: Seq<Token>, k: int) -> int {
    if k == 0 {
        0
    } else {
        toks[k - 1].end as int
    }
}

/// `toks` is exactly the token sequence of the text `s` up to `upto`: each
/// token starts at the first byte that is not whitespace after the previous
/// one and is the longest token there.
pub open spec fn tokens_of(s: Seq<u8>, toks: Seq<Token>, upto: int) -> bool {
    &&& forall|k: int|
        0 <= k < toks.len() ==> {
            let t = #[trigger] toks[k];
            &&& prev_end(toks, k) <= t.start < t.end <= upto
            &&& all_whitespace(s, prev_end(toks, k), t.start as int)
            &&& !is_whitespace(s[t.start as int])
            &&& scan(s, t.start as int) == (t.kind, t.end as int)
            &&& t.line_break_before == has_newline(s, prev_end(toks, k), t.start as int)
        }
    &&& prev_end(toks, toks.len() as int) <= upto
}

/// The token sequence of the whole text.
pub open spec fn is_tokenization(s: Seq<u8>, toks: Seq<Token>) -> bool {
    &&& tokens_of(s, toks, s.len() as int)
    &&& all_whitespace(s, prev_end(toks, toks.len() as int), s.len() as int)
}

fn is_whitespace_exec(b: u8) -> (r: bool)
    ensures
        r == is_whitespace(b),
{
    b == 32 || b == 9 || b == 13 || b == NEWLINE
}

fn is_digit_exec(b: u8) -> (r: bool)
    ensures
        r == is_digit(b),
{
    48 <= b && b <= 57
}

/// Ends of runs only grow, and a run end is not before its start.
proof fn lemma_run_ends(s: Seq<u8>, j: int)
    requires
        0 <= j <= s.len(),
    ensures
        j <= ident_end(s, j) <= s.len(),
        j <= digits_end(s, j) <= s.len(),
        j <= continuation_end(s, j) <= s.len(),
        j <= newline_from(s, j) <= s.len(),
        j < string_end(s, j).1 <= s.len() || (j == s.len() && string_end(s, j).1 == s.len()),
    decreases s.len() - j,
{
    if j < s.len() {
        lemma_run_ends(s, j + 1);
        if s[j] == BACKSLASH && j + 1 < s.len() && s[j + 1] != NEWLINE {
            lemma_run_ends(s, j + 2);
        }
    }
}

/// The token that starts at `i`: its kind and end.
fn scan_token(s: &[u8], i: usize) -> (r: (TokenKind, usize))
    requires
        i < s@.len(),
    ensures
        scan(s@, i as int) == (r.0, r.1 as int),
        i < r.1 <= s@.len(),
{
    proof {
        lemma_run_ends(s@, i as int);
        lemma_run_ends(s@, i as int + 1);
    }
    let b = s[i];
    let next: Option<u8> = if i + 1 < s.len() {
        Some(s[i + 1])
    } else {
        None
    };
    if is_ident_byte_exec(b) && !is_digit_exec(b) {
        let mut j = i;
        while j < s.len() && is_ident_byte_exec(s[j])
            invariant
                i <= j <= s@.len(),
                ident_end(s@, j as int) == ident_end(s@, i as int),
            decreases s.len() - j,
        {
            j += 1;
        }
        return (TokenKind::Identifier, j);
    }
    if is_digit_exec(b) {
        let mut j = i;
        while j < s.len() && is_digit_exec(s[j])
            invariant
                i <= j <= s@.len(),
                digits_end(s@, j as int) == digits_end(s@, i as int),
            decreases s.len() - j,
        {
            j += 1;
        }
        return (TokenKind::Integer, j);
    }
    if b == QUOTE {
        let mut j = i + 1;
        while j < s.len()
            invariant
                i + 1 <= j <= s@.len(),
                i < s@.len(),
                s@[i as int] == QUOTE,
                string_end(s@, j as int) == string_end(s@, i as int + 1),
            decreases s.len() - j,
        {
            let c = s[j];
            if c == QUOTE {
                return (TokenKind::String, j + 1);
            }
            if c == NEWLINE {
                return (TokenKind::UnterminatedString, j + 1);
            }
            if c == BACKSLASH && j + 1 < s.len() && s[j + 1] != NEWLINE {
                j += 2;
            } else {
                j += 1;
            }
        }
        return (TokenKind::UnterminatedString, s.len());
    }
    if b == HASH {
        let mut j = i;
        while j < s.len() && s[j] != NEWLINE
            invariant
                i <= j <= s@.len(),
                newline_from(s@, j as int) == newline_from(s@, i as int),
            decreases s.len() - j,
        {
            j += 1;
        }
        return (TokenKind::Comment, j);
    }
    let single = if b == 40 {
        Some(TokenKind::LParen)
    } else if b == 41 {
        Some(TokenKind::RParen)
    } else if b == 91 {
        Some(TokenKind::LBracket)
    } else if b == 93 {
        Some(TokenKind::RBracket)
    } else if b == 123 {
        Some(TokenKind::LBrace)
    } else if b == 125 {
        Some(TokenKind::RBrace)
    } else if b == 44 {
        Some(TokenKind::Comma)
    } else if b == 46 {
        Some(TokenKind::Dot)
    } else {
        None
    };
    if let Some(kind) = single {
        return (kind, i + 1);
    }
    let eq = next == Some(61u8);
    let op: Option<(TokenKind, usize)> = if b == 61 {
        Some(if eq { (TokenKind::Eq, 2) } else { (TokenKind::Assign, 1) })
    } else if b == 43 {
        Some(if eq { (TokenKind::AddAssign, 2) } else { (TokenKind::Plus, 1) })
    } else if b == 45 {
        Some(if eq { (TokenKind::SubAssign, 2) } else { (TokenKind::Minus, 1) })
    } else if b == 33 {
        Some(if eq { (TokenKind::Ne, 2) } else { (TokenKind::Not, 1) })
    } else if b == 60 {
        Some(if eq { (TokenKind::Le, 2) } else { (TokenKind::Lt, 1) })
    } else if b == 62 {
        Some(if eq { (TokenKind::Ge, 2) } else { (TokenKind::Gt, 1) })
    } else if b == 38 && next == Some(38u8) {
        Some((TokenKind::And, 2))
    } else if b == 124 && next == Some(124u8) {
        Some((TokenKind::Or, 2))
    } else {
        None
    };
    if let Some((kind, n)) = op {
        return (kind, i + n);
    }
    let mut j = i + 1;
    while j < s.len() && 0x80 <= s[j] && s[j] < 0xC0
        invariant
            i + 1 <= j <= s@.len(),
            continuation_end(s@, j as int) == continuation_end(s@, i as int + 1),
        decreases s.len() - j,
    {
        j += 1;
    }
    (TokenKind::Unknown, j)
}

/// Splits `s` into tokens.
pub fn tokenize(s: &[u8]) -> (r: Vec<Token>)
    ensures
        is_tokenization(s@, r@),
{
    let mut toks: Vec<Token> = Vec::new();
    let mut pos: usize = 0;
    let mut ws_start: usize = 0;
    let mut saw_newline = false;
    while pos < s.len()
        invariant
            0 <= ws_start <= pos <= s@.len(),
            ws_start == prev_end(toks@, toks@.len() as int),
            tokens_of(s@, toks@, ws_start as int),
            all_whitespace(s@, ws_start as int, pos as int),
            saw_newline == has_newline(s@, ws_start as int, pos as int),
        decreases s.len() - pos,
    {
        let b = s[pos];
        if is_whitespace_exec(b) {
            proof {
                if has_newline(s@, ws_start as int, pos as int + 1) && !has_newline(
                    s@,
                    ws_start as int,
                    pos as int,
                ) {
                    let k = choose|k: int| ws_start <= k < pos + 1 && #[trigger] s@[k] == NEWLINE;
                    assert(k == pos);
                }
                if b == NEWLINE {
                    assert(s@[pos as int] == NEWLINE);
                }
            }
            saw_newline = saw_newline || b == NEWLINE;
            pos += 1;
        } else {
            let (kind, end) = scan_token(s, pos);
            let tok = Token { kind, start: pos, end, line_break_before: saw_newline };
            let ghost old_toks = toks@;
            toks.push(tok);
            proof {
                assert forall|k: int| 0 <= k < toks@.len() implies {
                    let t = #[trigger] toks@[k];
                    &&& prev_end(toks@, k) <= t.start < t.end <= end
                    &&& all_whitespace(s@, prev_end(toks@, k), t.start as int)
                    &&& !is_whitespace(s@[t.start as int])
                    &&& scan(s@, t.start as int) == (t.kind, t.end as int)
                    &&& t.line_break_before == has_newline(s@, prev_end(toks@, k), t.start as int)
                } by {
                    if k < old_toks.len() {
                        assert(toks@[k] == old_toks[k]);
                        assert(prev_end(toks@, k) == prev_end(old_toks, k));
                    }
                }
            }
            pos = end;
            ws_start = end;
            saw_newline = false;
        }
    }
    toks
}

/// A text has one token sequence: two tokenizations of the same text are
/// the same.
pub proof fn lemma_tokenization_unique(s: Seq<u8>, a: Seq<Token>, b: Seq<Token>)
    requires
        is_tokenization(s, a),
        is_tokenization(s, b),
    ensures
        a == b,
{
    lemma_tokens_agree(s, a, b, 0);
}

/// Two tokenizations agree on their first `k` tokens, then on the rest.
proof fn lemma_tokens_agree(s: Seq<u8>, a: Seq<Token>, b: Seq<Token>, k: int)
    requires
        is_tokenization(s, a),
        is_tokenization(s, b),
        0 <= k <= a.len(),
        k <= b.len(),
        forall|j: int| 0 <= j < k ==> a[j] == b[j],
    ensures
        a == b,
    decreases a.len() - k,
{
    let e = prev_end(a, k);
    assert(e == prev_end(b, k));
    if k == a.len() && k == b.len() {
        assert(a =~= b);
    } else if k == a.len() {
        let t = b[k];
        assert(all_whitespace(s, e, s.len() as int));
        assert(is_whitespace(s[t.start as int]));
    } else if k == b.len() {
        let t = a[k];
        assert(all_whitespace(s, e, s.len() as int));
        assert(is_whitespace(s[t.start as int]));
    } else {
        let x = a[k];
        let y = b[k];
        if x.start < y.start {
            assert(is_whitespace(s[x.start as int]));
        } else if y.start < x.start {
            assert(is_whitespace(s[y.start as int]));
        }
        assert(x.start == y.start);
        assert(x == y);
        lemma_tokens_agree(s, a, b, k + 1);
    }
}

} // verus!
