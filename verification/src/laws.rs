//! Laws that relate several reader operations, stated and proved once and
//! for all over the mathematical model that the operations' contracts use.

use vstd::prelude::*;

use crate::location::{lemma_line_counts_newlines, newline_count};
use crate::reader::Reader;
use crate::scan::{lemma_run_length_unique, run_length};

verus! {

/// Advancing by `n` bytes and then unwinding by `n`, with no call in
/// between, restores the cursor and with it the line and column — provided
/// the advance does not run past the end of the buffer, or the cursor
/// started at the very beginning. (A saturated advance from a nonzero
/// cursor forgets how far it really moved, so the unwind can overshoot.)
/// The two middle hypotheses are exactly what `advance_by` and `unwind_by`
/// ensure.
pub proof fn lemma_advance_then_unwind_restores(
    pre: Reader,
    mid: Reader,
    post: Reader,
    n: usize,
)
    requires
        pre.wf(),
        mid.wf(),
        post.wf(),
        pre.index + n <= pre.buf@.len() || pre.index == 0,
        mid.buf == pre.buf,
        mid.index == pre.index + vstd::math::min(n as int, pre.buf@.len() - pre.index),
        post.buf == mid.buf,
        post.index == mid.index - vstd::math::min(n as int, mid.index as int),
    ensures
        post.index == pre.index,
        post.line == pre.line,
        post.column == pre.column,
{
}

/// After any sequence of operations, the number of newline bytes in the
/// consumed prefix is exactly the current line number minus one.
pub proof fn lemma_line_is_newlines_consumed(r: Reader)
    requires
        r.wf(),
    ensures
        r.line - 1 == newline_count(r.buf@.take(r.index as int)),
{
    lemma_line_counts_newlines(r.buf@, r.index as int);
}

/// A while-read that stops only at the end of the buffer or at a byte that
/// fails the predicate consumes exactly the leading bytes satisfying the
/// predicate: its consumed length, `j - i`, equals their count.
pub proof fn lemma_read_while_consumes_leading_run(
    s: Seq<u8>,
    i: int,
    j: int,
    p: spec_fn(u8) -> bool,
)
    requires
        0 <= i <= j <= s.len(),
        forall|k: int| i <= k < j ==> #[trigger] p(s[k]),
        j == s.len() || !p(s[j]),
    ensures
        j - i == run_length(s, i, p),
{
    lemma_run_length_unique(s, i, j, p);
}

/// Repeating a while-read with the same predicate right after one finished
/// at offset `j` consumes nothing: the second read returns an empty range.
pub proof fn lemma_read_while_idempotent(s: Seq<u8>, j: int, p: spec_fn(u8) -> bool)
    requires
        0 <= j <= s.len(),
        j == s.len() || !p(s[j]),
    ensures
        run_length(s, j, p) == 0,
{
}

} // verus!
