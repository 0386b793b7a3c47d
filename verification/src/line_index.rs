//! Conversion between byte offsets and editor positions (line number and
//! UTF-16 code unit within the line), as the Language Server Protocol counts them.

use vstd::prelude::*;
use vstd::string::StringSliceAdditionalSpecFns;

use crate::util::{is_boundary, is_continuation, NEWLINE};

verus! {

/// A zero-based line and UTF-16 column.
#[derive(Clone, Copy, Debug, PartialEq, Eq, Structural, Default)]
pub struct Position {
    pub line: u32,
    pub character: u32,
}

impl Position {
    pub fn new(line: u32, character: u32) -> (r: Position)
        ensures
            r.line == line,
            r.character == character,
    {
        Position { line, character }
    }
}

/// A pair of positions.
#[derive(Clone, Copy, Debug, PartialEq, Eq, Structural, Default)]
pub struct Range {
    pub start: Position,
    pub end: Position,
}

/// Number of newline bytes in `s`.
pub open spec fn newline_count(s: Seq<u8>) -> nat
    decreases s.len(),
{
    if s.len() == 0 {
        0
    } else {
        newline_count(s.drop_last()) + if s.last() == NEWLINE {
            1nat
        } else {
            0nat
        }
    }
}

/// Offsets at which the lines of `s` start: offset 0, and every offset just
/// past a newline (so text ending in a newline has a last, empty line).
pub open spec fn line_starts(s: Seq<u8>) -> Seq<int>
    decreases s.len(),
{
    if s.len() == 0 {
        seq![0int]
    } else if s.last() == NEWLINE {
        line_starts(s.drop_last()).push(s.len() as int)
    } else {
        line_starts(s.drop_last())
    }
}

/// UTF-16 code units taken by one byte of UTF-8 text: a leading byte of a
/// four-byte sequence stands for a surrogate pair, continuation bytes count nothing.
pub open spec fn utf16_weight(b: u8) -> nat {
    if is_continuation(b) {
        0
    } else if b >= 0xF0 {
        2
    } else {
        1
    }
}

/// Length in UTF-16 code units of the UTF-8 text `s`.
pub open spec fn utf16_len(s: Seq<u8>) -> nat
    decreases s.len(),
{
    if s.len() == 0 {
        0
    } else {
        utf16_len(s.drop_last()) + utf16_weight(s.last())
    }
}

/// Zero-based line of `offset`: the newlines before it (offsets past the end
/// count as the end).
pub open spec fn line_of(s: Seq<u8>, offset: int) -> nat {
    newline_count(s.take(if offset < s.len() { offset } else { s.len() as int }))
}

/// Start of the line that holds `offset`.
pub open spec fn line_start_of(s: Seq<u8>, offset: int) -> int {
    line_starts(s)[line_of(s, offset) as int]
}

/// End of line `n` (just past its newline, or the end of the text).
pub open spec fn line_end(s: Seq<u8>, n: int) -> int {
    if n + 1 < line_starts(s).len() {
        line_starts(s)[n + 1]
    } else {
        s.len() as int
    }
}

/// The position that `position` gives for `offset`.
pub open spec fn spec_position(s: Seq<u8>, offset: int) -> Position {
    Position {
        line: line_of(s, offset) as u32,
        character: if is_boundary(s, offset) {
            utf16_len(s.subrange(line_start_of(s, offset), offset)) as u32
        } else {
            0u32
        },
    }
}

/// Offsets of line `n` where a character may start: character starts and the line's end.
pub open spec fn is_column_stop(s: Seq<u8>, n: int, k: int) -> bool {
    &&& line_starts(s)[n] <= k <= line_end(s, n)
    &&& (k == line_end(s, n) || !is_continuation(s[k]))
}

/// Column of offset `k` on line `n`, in UTF-16 code units.
pub open spec fn column(s: Seq<u8>, n: int, k: int) -> nat {
    utf16_len(s.subrange(line_starts(s)[n], k))
}

/// `o` is the first column stop of line `n` whose column reaches `ch`.
pub open spec fn is_offset_of(s: Seq<u8>, n: int, ch: nat, o: int) -> bool {
    &&& is_column_stop(s, n, o)
    &&& column(s, n, o) >= ch
    &&& forall|k: int| is_column_stop(s, n, k) && k < o ==> #[trigger] column(s, n, k) < ch
}

/// The offset that `offset` gives for a position: none when the line does not
/// exist or is too short for the column.
pub open spec fn spec_offset(s: Seq<u8>, p: Position) -> Option<int> {
    let n = p.line as int;
    let ch = p.character as nat;
    if n >= line_starts(s).len() || column(s, n, line_end(s, n)) < ch {
        None
    } else {
        Some(choose|o: int| is_offset_of(s, n, ch, o))
    }
}

/// Maps offsets to positions and back for one text.
pub struct LineIndex {
    text: Vec<u8>,
    starts: Vec<usize>,
}

impl View for LineIndex {
    type V = Seq<u8>;

    closed spec fn view(&self) -> Seq<u8> {
        self.text@
    }
}

proof fn lemma_take_drop_last(s: Seq<u8>, k: int)
    requires
        0 <= k < s.len(),
    ensures
        s.take(k + 1).drop_last() == s.take(k),
        s.take(k + 1).last() == s[k],
{
    assert(s.take(k + 1).drop_last() =~= s.take(k));
}

proof fn lemma_subrange_drop_last(s: Seq<u8>, a: int, k: int)
    requires
        0 <= a <= k < s.len(),
    ensures
        s.subrange(a, k + 1).drop_last() == s.subrange(a, k),
        s.subrange(a, k + 1).last() == s[k],
{
    assert(s.subrange(a, k + 1).drop_last() =~= s.subrange(a, k));
}

/// Newline counts of prefixes grow with the prefix, strictly across a newline.
proof fn lemma_newline_count_mono(s: Seq<u8>, a: int, b: int)
    requires
        0 <= a <= b <= s.len(),
    ensures
        newline_count(s.take(a)) <= newline_count(s.take(b)),
        (exists|i: int| a <= i < b && s[i] == NEWLINE) ==> newline_count(s.take(a))
            < newline_count(s.take(b)),
    decreases b - a,
{
    if a < b {
        lemma_newline_count_mono(s, a, b - 1);
        lemma_take_drop_last(s, b - 1);
        if exists|i: int| a <= i < b && s[i] == NEWLINE {
            let i = choose|i: int| a <= i < b && s[i] == NEWLINE;
            if i < b - 1 {
                assert(a <= i < b - 1 && s[i] == NEWLINE);
            }
        }
    }
}

/// UTF-16 lengths of subranges starting at `a` grow with the end, strictly
/// across a byte that starts a character.
proof fn lemma_utf16_mono(s: Seq<u8>, a: int, k1: int, k2: int)
    requires
        0 <= a <= k1 <= k2 <= s.len(),
    ensures
        utf16_len(s.subrange(a, k1)) <= utf16_len(s.subrange(a, k2)),
        k1 < k2 && !is_continuation(s[k1]) ==> utf16_len(s.subrange(a, k1)) < utf16_len(
            s.subrange(a, k2),
        ),
    decreases k2 - k1,
{
    if k1 < k2 {
        lemma_utf16_mono(s, a, k1, k2 - 1);
        lemma_subrange_drop_last(s, a, k2 - 1);
        if k1 == k2 - 1 {
            assert(s.subrange(a, k1) == s.subrange(a, k2).drop_last());
        }
    }
}

/// Shape of `line_starts`: one entry per newline plus one, each a line start
/// whose prefix holds exactly that many newlines.
proof fn lemma_line_starts(s: Seq<u8>)
    ensures
        line_starts(s).len() == newline_count(s) + 1,
        line_starts(s)[0] == 0,
        forall|n: int|
            0 <= n < line_starts(s).len() ==> {
                let k = #[trigger] line_starts(s)[n];
                &&& 0 <= k <= s.len()
                &&& (k == 0 || s[k - 1] == NEWLINE)
                &&& newline_count(s.take(k)) == n
            },
    decreases s.len(),
{
    if s.len() > 0 {
        let t = s.drop_last();
        lemma_line_starts(t);
        assert forall|n: int| 0 <= n < line_starts(t).len() implies {
            let k = #[trigger] line_starts(t)[n];
            newline_count(s.take(k)) == n && (k == 0 || s[k - 1] == NEWLINE)
        } by {
            let k = line_starts(t)[n];
            assert(s.take(k) =~= t.take(k));
        }
        assert(s.take(s.len() as int) =~= s);
        assert(s.drop_last() == t);
    }
}

/// The line of `offset` is delimited by consecutive line starts.
proof fn lemma_line_bounds(s: Seq<u8>, o: int)
    requires
        0 <= o,
    ensures
        line_of(s, o) < line_starts(s).len(),
        line_start_of(s, o) <= o,
        o <= s.len() ==> o <= line_end(s, line_of(s, o) as int),
        o <= s.len() && line_of(s, o) + 1 < line_starts(s).len() ==> o < line_end(
            s,
            line_of(s, o) as int,
        ),
{
    lemma_line_starts(s);
    let m = if o < s.len() {
        o
    } else {
        s.len() as int
    };
    let n = line_of(s, o) as int;
    lemma_newline_count_mono(s, m, s.len() as int);
    assert(s.take(s.len() as int) =~= s);
    let k = line_starts(s)[n];
    if k > m {
        // A line start after `m` has a newline at or after `m`, hence more newlines.
        assert(m <= k - 1 < k && s[k - 1] == NEWLINE);
        lemma_newline_count_mono(s, m, k);
    }
    if n + 1 < line_starts(s).len() {
        let k2 = line_starts(s)[n + 1];
        if k2 <= m {
            lemma_newline_count_mono(s, k2, m);
        }
    }
}

impl LineIndex {
    #[verifier::type_invariant]
    closed spec fn inv(self) -> bool {
        &&& self.starts@.len() == line_starts(self.text@).len()
        &&& forall|n: int|
            0 <= n < self.starts@.len() ==> self.starts@[n] as int == #[trigger] line_starts(
                self.text@,
            )[n]
    }

    /// Indexes the lines of `input`.
    pub fn new(input: &str) -> (r: LineIndex)
        ensures
            r@ == input.spec_bytes(),
    {
        let bytes = input.as_bytes();
        let text = vstd::slice::slice_to_vec(bytes);
        let mut starts: Vec<usize> = Vec::new();
        starts.push(0);
        let mut i: usize = 0;
        while i < text.len()
            invariant
                0 <= i <= text.len(),
                starts@.len() == line_starts(text@.take(i as int)).len(),
                forall|n: int|
                    0 <= n < starts@.len() ==> starts@[n] as int == #[trigger] line_starts(
                        text@.take(i as int),
                    )[n],
            decreases text.len() - i,
        {
            proof {
                lemma_take_drop_last(text@, i as int);
            }
            if text[i] == NEWLINE {
                starts.push(i + 1);
            }
            i += 1;
        }
        assert(text@.take(text@.len() as int) =~= text@);
        LineIndex { text, starts }
    }

    /// Index of the last line starting at or before `offset`.
    fn find_line(&self, offset: usize) -> (r: usize)
        ensures
            r == line_of(self@, offset as int),
    {
        proof {
            use_type_invariant(self);
            lemma_line_starts(self@);
            lemma_line_bounds(self@, offset as int);
        }
        let ghost s = self@;
        let ghost n = line_of(s, offset as int) as int;
        // Line starts increase strictly, so `n` is the last one at or before `offset`.
        assert forall|i: int| 0 <= i <= n implies self.starts@[i] <= offset by {
            if i < n {
                let ki = line_starts(s)[i];
                let kn = line_starts(s)[n];
                if ki > kn {
                    lemma_newline_count_mono(s, kn, ki);
                }
            }
        }
        assert forall|i: int| n < i < self.starts@.len() implies self.starts@[i] > offset by {
            let ki = line_starts(s)[i];
            let m = if offset < s.len() {
                offset as int
            } else {
                s.len() as int
            };
            if ki <= m {
                lemma_newline_count_mono(s, ki, m);
            }
            assert(s.take(s.len() as int) =~= s);
            lemma_newline_count_mono(s, m, s.len() as int);
        }
        let mut lo: usize = 0;
        let mut hi: usize = self.starts.len();
        while lo + 1 < hi
            invariant
                0 <= lo < hi <= self.starts@.len(),
                self.starts@.len() == line_starts(s).len(),
                lo <= n < hi,
                forall|i: int| 0 <= i <= n ==> self.starts@[i] <= offset,
                forall|i: int| n < i < self.starts@.len() ==> self.starts@[i] > offset,
            decreases hi - lo,
        {
            let mid = lo + (hi - lo) / 2;
            if self.starts[mid] <= offset {
                lo = mid;
            } else {
                hi = mid;
            }
        }
        lo
    }

    /// Line and UTF-16 column of byte `offset`. An offset inside a character or
    /// past the end of the text gets column 0.
    pub fn position(&self, offset: usize) -> (r: Position)
        ensures
            r == spec_position(self@, offset as int),
    {
        proof {
            use_type_invariant(self);
            lemma_line_starts(self@);
            lemma_line_bounds(self@, offset as int);
        }
        let line = self.find_line(offset);
        let start = self.starts[line];
        let mut character: u128 = 0;
        if offset <= self.text.len() && (offset == self.text.len() || !(0x80 <= self.text[offset]
            && self.text[offset] < 0xC0)) {
            let mut i: usize = start;
            while i < offset
                invariant
                    start <= i <= offset <= self.text@.len(),
                    character == utf16_len(self.text@.subrange(start as int, i as int)),
                    character <= 2 * (i - start),
                decreases offset - i,
            {
                proof {
                    lemma_subrange_drop_last(self.text@, start as int, i as int);
                }
                let b = self.text[i];
                if 0x80 <= b && b < 0xC0 {
                } else if b >= 0xF0 {
                    character += 2;
                } else {
                    character += 1;
                }
                i += 1;
            }
        }
        Position { line: #[verifier::truncate] (line as u32), character: #[verifier::truncate] (character as u32) }
    }

    /// Range of positions of a span.
    pub fn range(&self, span: crate::ast::Span) -> (r: Range)
        ensures
            r.start == spec_position(self@, span.start as int),
            r.end == spec_position(self@, span.end as int),
    {
        Range { start: self.position(span.start), end: self.position(span.end) }
    }

    /// Byte offset of `position`: the first character start (or the line's end)
    /// whose column reaches `position.character`; `None` when the line does not
    /// exist or is too short.
    pub fn offset(&self, position: Position) -> (r: Option<usize>)
        ensures
            r matches Some(o) ==> spec_offset(self@, position) == Some(o as int),
            r is None ==> spec_offset(self@, position) is None,
    {
        proof {
            use_type_invariant(self);
            lemma_line_starts(self@);
        }
        let ghost s = self@;
        let line = position.line as usize;
        if line >= self.starts.len() {
            return None;
        }
        let ghost n = line as int;
        let start = self.starts[line];
        let end = if line + 1 < self.starts.len() {
            self.starts[line + 1]
        } else {
            self.text.len()
        };
        proof {
            if n + 1 < line_starts(s).len() {
                let k1 = line_starts(s)[n];
                let k2 = line_starts(s)[n + 1];
                if k2 <= k1 {
                    lemma_newline_count_mono(s, k2, k1);
                }
            }
        }
        let target = position.character as u64;
        let mut count: u64 = 0;
        let mut i: usize = start;
        while i < end
            invariant
                0 <= n < line_starts(s).len(),
                start as int == line_starts(s)[n],
                end as int == line_end(s, n),
                start <= i <= end <= s.len(),
                s == self.text@,
                count == column(s, n, i as int),
                count <= target + 1,
                target == position.character as u64,
                n == position.line as int,
                forall|k: int| is_column_stop(s, n, k) && k < i ==> #[trigger] column(s, n, k) < target,
            decreases end - i,
        {
            proof {
                lemma_subrange_drop_last(s, start as int, i as int);
            }
            let b = self.text[i];
            let cont = 0x80 <= b && b < 0xC0;
            if !cont && count >= target {
                proof {
                    lemma_utf16_mono(s, start as int, i as int, end as int);
                    assert(is_offset_of(s, n, target as nat, i as int));
                    lemma_offset_unique(s, n, target as nat, i as int);
                }
                return Some(i);
            }
            if cont {
            } else if b >= 0xF0 {
                count += 2;
            } else {
                count += 1;
            }
            i += 1;
        }
        if count >= target {
            proof {
                assert(is_offset_of(s, n, target as nat, end as int));
                lemma_offset_unique(s, n, target as nat, end as int);
            }
            Some(end)
        } else {
            proof {
                assert forall|k: int| is_column_stop(s, n, k) implies #[trigger] column(s, n, k)
                    < target by {
                    if k < end {
                    } else {
                        assert(k == end);
                    }
                }
            }
            None
        }
    }
}

proof fn lemma_offset_unique(s: Seq<u8>, n: int, ch: nat, o: int)
    requires
        is_offset_of(s, n, ch, o),
    ensures
        (choose|o2: int| is_offset_of(s, n, ch, o2)) == o,
{
    let o2 = choose|o2: int| is_offset_of(s, n, ch, o2);
    assert(is_offset_of(s, n, ch, o2));
    if o2 < o {
        assert(is_column_stop(s, n, o2) && o2 < o);
    } else if o < o2 {
        assert(is_column_stop(s, n, o) && o < o2);
    }
}

/// Converting an offset to a position and back gives the offset again, for
/// every offset on a character boundary whose line number and column fit the
/// position's 32 bits (so for every offset of a text shorter than 2 GiB).
pub proof fn lemma_offset_position_roundtrip(s: Seq<u8>, o: int)
    requires
        is_boundary(s, o),
        line_of(s, o) <= u32::MAX,
        column(s, line_of(s, o) as int, o) <= u32::MAX,
    ensures
        spec_offset(s, spec_position(s, o)) == Some(o),
{
    lemma_line_starts(s);
    lemma_line_bounds(s, o);
    let n = line_of(s, o) as int;
    let ls = line_starts(s)[n];
    let le = line_end(s, n);
    lemma_newline_count_le_len(s);
    lemma_newline_count_mono(s, if o < s.len() { o } else { s.len() as int }, s.len() as int);
    assert(s.take(s.len() as int) =~= s);
    lemma_utf16_le_len(s.subrange(ls, o));
    lemma_utf16_mono(s, ls, o, le);
    let p = spec_position(s, o);
    assert(p.line as int == n);
    assert(p.character as nat == column(s, n, o));
    assert forall|k: int| is_column_stop(s, n, k) && k < o implies #[trigger] column(s, n, k)
        < p.character as nat by {
        lemma_utf16_mono(s, ls, k, o);
    }
    assert(is_offset_of(s, n, p.character as nat, o));
    lemma_offset_unique(s, n, p.character as nat, o);
}

proof fn lemma_newline_count_le_len(s: Seq<u8>)
    ensures
        newline_count(s) <= s.len(),
    decreases s.len(),
{
    if s.len() > 0 {
        lemma_newline_count_le_len(s.drop_last());
    }
}

proof fn lemma_utf16_le_len(s: Seq<u8>)
    ensures
        utf16_len(s) <= 2 * s.len(),
    decreases s.len(),
{
    if s.len() > 0 {
        lemma_utf16_le_len(s.drop_last());
    }
}

} // verus!
