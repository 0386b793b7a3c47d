//! Small text utilities shared by the parser and the analyzer.

use vstd::prelude::*;

verus! {

/// `\n`
pub const NEWLINE: u8 = 10;
/// `"`
pub const QUOTE: u8 = 34;
/// `#`
pub const HASH: u8 = 35;
/// `$`
pub const DOLLAR: u8 = 36;
/// `.`
pub const DOT: u8 = 46;
/// `/`
pub const SLASH: u8 = 47;
/// `:`
pub const COLON: u8 = 58;
/// `\\`
pub const BACKSLASH: u8 = 92;
/// `_`
pub const UNDERSCORE: u8 = 95;

/// A byte that may appear in a GN identifier.
pub open spec fn is_ident_byte(b: u8) -> bool {
    (65 <= b && b <= 90) || (97 <= b && b <= 122) || (48 <= b && b <= 57) || b == UNDERSCORE
}

/// Whether `s` contains the byte `b`.
pub open spec fn contains_byte(s: Seq<u8>, b: u8) -> bool {
    exists|i: int| 0 <= i < s.len() && s[i] == b
}

/// A string literal is "simple" when it has neither escapes nor expansions.
pub open spec fn is_simple_literal(s: Seq<u8>) -> bool {
    !contains_byte(s, BACKSLASH) && !contains_byte(s, DOLLAR)
}

/// Whether `s` contains the byte `b`.
pub fn contains_byte_exec(s: &[u8], b: u8) -> (r: bool)
    ensures
        r == contains_byte(s@, b),
{
    let mut i: usize = 0;
    while i < s.len()
        invariant
            i <= s@.len(),
            forall|j: int| 0 <= j < i ==> s@[j] != b,
        decreases s.len() - i,
    {
        if s[i] == b {
            return true;
        }
        i += 1;
    }
    false
}

pub fn is_ident_byte_exec(b: u8) -> (r: bool)
    ensures
        r == is_ident_byte(b),
{
    (65 <= b && b <= 90) || (97 <= b && b <= 122) || (48 <= b && b <= 57) || b == UNDERSCORE
}

/// Returns the literal itself when it contains no escape (`\`) and no
/// expansion (`$`), and `None` otherwise.
pub fn parse_simple_literal(s: &[u8]) -> (r: Option<&[u8]>)
    ensures
        is_simple_literal(s@) ==> r == Some(s),
        !is_simple_literal(s@) ==> r is None,
{
    let mut i: usize = 0;
    while i < s.len()
        invariant
            0 <= i <= s.len(),
            forall|j: int| 0 <= j < i ==> s@[j] != BACKSLASH && s@[j] != DOLLAR,
        decreases s.len() - i,
    {
        if s[i] == BACKSLASH || s[i] == DOLLAR {
            return None;
        }
        i += 1;
    }
    Some(s)
}

/// Names starting with an underscore are private to the file that defines them.
pub open spec fn spec_is_exported(name: Seq<u8>) -> bool {
    !(name.len() > 0 && name[0] == UNDERSCORE)
}

pub fn is_exported(name: &[u8]) -> (r: bool)
    ensures
        r == spec_is_exported(name@),
{
    !(name.len() > 0 && name[0] == UNDERSCORE)
}

/// Whether the text before `offset` is a dot followed by identifier bytes only.
pub open spec fn spec_is_after_dot(data: Seq<u8>, offset: int) -> bool
    decreases offset,
{
    if offset <= 0 {
        false
    } else if data[offset - 1] == DOT {
        true
    } else if is_ident_byte(data[offset - 1]) {
        spec_is_after_dot(data, offset - 1)
    } else {
        false
    }
}

/// A byte that continues a multi-byte UTF-8 sequence.
pub open spec fn is_continuation(b: u8) -> bool {
    0x80 <= b && b < 0xC0
}

/// Whether `offset` falls on a character boundary of the UTF-8 text `data`.
pub open spec fn is_boundary(data: Seq<u8>, offset: int) -> bool {
    0 <= offset <= data.len() && (offset == data.len() || !is_continuation(data[offset]))
}

pub fn is_after_dot(data: &[u8], offset: usize) -> (r: bool)
    requires
        is_boundary(data@, offset as int),
    ensures
        r == spec_is_after_dot(data@, offset as int),
{
    let mut i: usize = offset;
    while i > 0
        invariant
            i <= offset <= data.len(),
            spec_is_after_dot(data@, offset as int) == spec_is_after_dot(data@, i as int),
        decreases i,
    {
        let c = data[i - 1];
        if c == DOT {
            return true;
        }
        if !is_ident_byte_exec(c) {
            return false;
        }
        i -= 1;
    }
    false
}

} // verus!
