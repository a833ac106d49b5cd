//! Source positions and diagnostics for the surface frontend.

use vstd::prelude::*;

verus! {

/// A half-open byte range of the source.
#[derive(Clone, Copy, Debug, PartialEq, Eq, Structural)]
pub struct SourceSpan {
    pub start: usize,
    pub end: usize,
}

/// A 1-based line and column (columns count characters).
#[derive(Clone, Copy, Debug, PartialEq, Eq, Structural)]
pub struct SourceLocation {
    pub line: usize,
    pub column: usize,
}

#[derive(Clone, Copy, Debug, PartialEq, Eq, Structural)]
pub struct LineColumnSpan {
    pub start: SourceLocation,
    pub end: SourceLocation,
}

#[derive(Clone, Debug, PartialEq, Eq)]
pub struct Diagnostic {
    pub message: String,
    pub span: Option<SourceSpan>,
}

impl Diagnostic {
    pub fn new(message: &str) -> (d: Self)
        ensures
            d.message@ == message@,
            d.span is None,
    {
        Diagnostic { message: message.to_owned(), span: None }
    }

    pub fn spanned(message: &str, span: SourceSpan) -> (d: Self)
        ensures
            d.message@ == message@,
            d.span == Some(span),
    {
        Diagnostic { message: message.to_owned(), span: Some(span) }
    }
}

/// The number of bytes `c` takes in UTF-8.
pub open spec fn utf8_len(c: char) -> int {
    if (c as u32) < 0x80 {
        1
    } else if (c as u32) < 0x800 {
        2
    } else if (c as u32) < 0x10000 {
        3
    } else {
        4
    }
}

/// Scanning `chars` for the position of byte `offset`: the bytes passed,
/// and the line and column reached. A character is passed only when it
/// starts before `offset`; a newline starts the next line at column 1,
/// any other character advances the column.
pub open spec fn scan(chars: Seq<char>, offset: int) -> (int, int, int)
    decreases chars.len(),
{
    if chars.len() == 0 {
        (0, 1, 1)
    } else {
        let (index, line, column) = scan(chars.drop_last(), offset);
        if index >= offset {
            (index, line, column)
        } else if chars.last() == '\n' {
            (index + utf8_len(chars.last()), line + 1, 1)
        } else {
            (index + utf8_len(chars.last()), line, column + 1)
        }
    }
}

pub open spec fn spec_line_column_at(src: Seq<char>, offset: int) -> SourceLocation {
    SourceLocation { line: scan(src, offset).1 as usize, column: scan(src, offset).2 as usize }
}

proof fn lemma_scan_bounds(chars: Seq<char>, offset: int)
    ensures
        1 <= scan(chars, offset).1 <= chars.len() + 1,
        1 <= scan(chars, offset).2 <= chars.len() + 1,
        scan(chars, offset).0 >= 0,
    decreases chars.len(),
{
    if chars.len() > 0 {
        lemma_scan_bounds(chars.drop_last(), offset);
    }
}

/// `a` comes no later than `b`: an earlier line, or the same line at no
/// later column.
pub open spec fn location_le(a: SourceLocation, b: SourceLocation) -> bool {
    a.line < b.line || (a.line == b.line && a.column <= b.column)
}

spec fn scan_le(a: (int, int, int), b: (int, int, int)) -> bool {
    &&& a.0 <= b.0
    &&& (a.1 < b.1 || (a.1 == b.1 && a.2 <= b.2))
}

/// A scan that passed every character reaches the same place for any
/// later offset.
proof fn lemma_scan_passed_all(chars: Seq<char>, o1: int, o2: int)
    requires
        scan(chars, o1).0 < o1,
        o1 <= o2,
    ensures
        scan(chars, o2) == scan(chars, o1),
    decreases chars.len(),
{
    if chars.len() > 0 {
        lemma_scan_index_grows(chars, o1);
        lemma_scan_passed_all(chars.drop_last(), o1, o2);
    }
}

proof fn lemma_scan_index_grows(chars: Seq<char>, o: int)
    requires
        chars.len() > 0,
    ensures
        scan(chars.drop_last(), o).0 <= scan(chars, o).0,
{
}

proof fn lemma_scan_monotone(chars: Seq<char>, o1: int, o2: int)
    requires
        o1 <= o2,
    ensures
        scan_le(scan(chars, o1), scan(chars, o2)),
    decreases chars.len(),
{
    if chars.len() > 0 {
        let d = chars.drop_last();
        lemma_scan_monotone(d, o1, o2);
        if scan(d, o1).0 < o1 {
            lemma_scan_passed_all(d, o1, o2);
        }
    }
}

/// Locating two offsets keeps their order: the line and column of an
/// earlier offset come no later than those of a later one.
pub proof fn law_locations_ordered(src: Seq<char>, start: int, end: int)
    requires
        start <= end,
        src.len() < usize::MAX,
    ensures
        location_le(spec_line_column_at(src, start), spec_line_column_at(src, end)),
{
    lemma_scan_monotone(src, start, end);
    lemma_scan_bounds(src, start);
    lemma_scan_bounds(src, end);
}

fn utf8_width(c: char) -> (n: usize)
    ensures
        n == utf8_len(c),
{
    let code = c as u32;
    if code < 0x80 {
        1
    } else if code < 0x800 {
        2
    } else if code < 0x10000 {
        3
    } else {
        4
    }
}

/// The line and column of byte `byte_offset` of `src`.
pub fn line_column_at(src: &str, byte_offset: usize) -> (loc: SourceLocation)
    requires
        src@.len() < usize::MAX,
    ensures
        loc == spec_line_column_at(src@, byte_offset as int),
{
    let mut index: u128 = 0;
    let mut line: usize = 1;
    let mut column: usize = 1;
    let mut stopped = byte_offset == 0;
    let ghost chars = src@;
    let ghost offset = byte_offset as int;
    for c in it: src.chars()
        invariant
            chars == src@,
            chars.len() < usize::MAX,
            it.seq() == chars,
            0 <= it.index() <= chars.len(),
            scan(chars.take(it.index() as int), offset) == (index as int, line as int, column as int),
            stopped == (index as int >= offset),
            offset == byte_offset as int,
            index <= offset + 4,
    {
        let ghost k = it.index() as int;
        let ghost before = (index as int, line as int, column as int);
        proof {
            assert(c == chars[it.index() as int]);
            assert(chars.take(it.index() + 1).drop_last() =~= chars.take(it.index() as int));
            assert(chars.take(it.index() + 1).last() == c);
            lemma_scan_bounds(chars.take(it.index() as int), offset);
        }
        if !stopped {
            let width = utf8_width(c);
            index = index + width as u128;
            if c == '\n' {
                line = line + 1;
                column = 1;
            } else {
                column = column + 1;
            }
            stopped = index >= byte_offset as u128;
        }
        proof {
            let t = chars.take(k + 1);
            assert(t.drop_last() =~= chars.take(k));
            assert(t.last() == c);
            assert(scan(t.drop_last(), offset) == before);
            assert(t.len() > 0);
            assert(scan(t, offset) == (index as int, line as int, column as int));
        }
    }
    proof {
        assert(chars.take(chars.len() as int) =~= chars);
    }
    SourceLocation { line, column }
}

impl SourceSpan {
    /// The line and column of both ends of the span.
    pub fn line_columns(self, src: &str) -> (r: LineColumnSpan)
        requires
            src@.len() < usize::MAX,
        ensures
            r.start == spec_line_column_at(src@, self.start as int),
            r.end == spec_line_column_at(src@, self.end as int),
            self.start <= self.end ==> location_le(r.start, r.end),
    {
        proof {
            if self.start <= self.end {
                law_locations_ordered(src@, self.start as int, self.end as int);
            }
        }
        LineColumnSpan { start: line_column_at(src, self.start), end: line_column_at(src, self.end) }
    }
}

} // verus!
