//! The mathematical model of line/column tracking.
//!
//! A position `i` bytes into a buffer sits on a 1-based line and column:
//! every consumed newline byte starts a new line at column 1, and every
//! other consumed byte moves one column to the right.

use vstd::prelude::*;

verus! {

/// 1-based line number of the position `i` bytes into `s`: line 1 at the
/// start, and one more line for every newline byte consumed.
pub open spec fn line_of(s: Seq<u8>, i: int) -> int
    decreases i,
{
    if i <= 0 {
        1
    } else if s[i - 1] == 10 {
        line_of(s, i - 1) + 1
    } else {
        line_of(s, i - 1)
    }
}

/// 1-based column of the position `i` bytes into `s`: column 1 at the start
/// and right after a newline, and one more column for every other byte.
pub open spec fn col_of(s: Seq<u8>, i: int) -> int
    decreases i,
{
    if i <= 0 {
        1
    } else if s[i - 1] == 10 {
        1
    } else {
        col_of(s, i - 1) + 1
    }
}

/// Offset of the last newline byte among the first `i` bytes of `s`,
/// or -1 when there is none.
pub open spec fn last_newline_before(s: Seq<u8>, i: int) -> int
    decreases i,
{
    if i <= 0 {
        -1
    } else if s[i - 1] == 10 {
        i - 1
    } else {
        last_newline_before(s, i - 1)
    }
}

/// Number of newline bytes in `s`.
pub open spec fn newline_count(s: Seq<u8>) -> int
    decreases s.len(),
{
    if s.len() == 0 {
        0
    } else if s.last() == 10 {
        newline_count(s.drop_last()) + 1
    } else {
        newline_count(s.drop_last())
    }
}

/// Lines and columns are 1-based and can never exceed the offset plus one.
pub proof fn lemma_line_col_bounds(s: Seq<u8>, i: int)
    requires
        0 <= i,
    ensures
        1 <= line_of(s, i) <= i + 1,
        1 <= col_of(s, i) <= i + 1,
    decreases i,
{
    if i > 0 {
        lemma_line_col_bounds(s, i - 1);
    }
}

/// The column at `i` is the distance from the byte after the last newline
/// before `i` (or from the start of the buffer when there is none).
pub proof fn lemma_col_from_last_newline(s: Seq<u8>, i: int)
    requires
        0 <= i,
    ensures
        -1 <= last_newline_before(s, i) < i,
        col_of(s, i) == i - last_newline_before(s, i),
    decreases i,
{
    if i > 0 {
        lemma_col_from_last_newline(s, i - 1);
    }
}

/// A stretch without newlines does not change which newline was last.
pub proof fn lemma_last_newline_skip(s: Seq<u8>, j: int, i: int)
    requires
        0 <= j <= i,
        forall|k: int| j <= k < i ==> s[k] != 10,
    ensures
        last_newline_before(s, i) == last_newline_before(s, j),
    decreases i - j,
{
    if j < i {
        lemma_last_newline_skip(s, j, i - 1);
    }
}

/// The line number at `i` is one more than the number of newline bytes
/// among the first `i` bytes.
pub proof fn lemma_line_counts_newlines(s: Seq<u8>, i: int)
    requires
        0 <= i <= s.len(),
    ensures
        line_of(s, i) == 1 + newline_count(s.take(i)),
    decreases i,
{
    if i == 0 {
        assert(s.take(0) =~= Seq::<u8>::empty());
    } else {
        lemma_line_counts_newlines(s, i - 1);
        assert(s.take(i).drop_last() =~= s.take(i - 1));
        assert(s.take(i).last() == s[i - 1]);
    }
}

} // verus!
