//! The reader itself: a backtrackable byte cursor with line/column tracking.

use vstd::prelude::*;
use vstd::slice::slice_subrange;

use crate::location::{
    col_of, lemma_col_from_last_newline, lemma_last_newline_skip, lemma_line_col_bounds, line_of,
};
use crate::scan::{
    camel_pred, decimal_value, digit_pred, is_camel_byte, is_digit, is_kebab_byte, is_snake_byte,
    is_whitespace, kebab_pred, lemma_decimal_value_nonneg, lemma_decimal_value_prefix,
    lemma_run_length_spec, lemma_run_length_unique, ne_pred, run_length, snake_pred,
    whitespace_pred,
};
use crate::text::{ascii_chars, lemma_ascii_utf8, utf8_to_str};
use vstd::utf8::{decode_utf8, valid_utf8};

verus! {

/// A class of bytes that the scanning helpers can recognise.
enum ByteClass {
    /// ASCII whitespace.
    Whitespace,
    /// ASCII decimal digits.
    Digit,
    /// Bytes allowed in a `camelCase` word.
    Camel,
    /// Bytes allowed in a `snake_case` word.
    Snake,
    /// Bytes allowed in a `kebab-case` word.
    Kebab,
    /// Every byte except the one given.
    NotByte(u8),
}

impl ByteClass {
    /// Membership of `b` in the class.
    spec fn holds(self, b: u8) -> bool {
        match self {
            ByteClass::Whitespace => is_whitespace(b),
            ByteClass::Digit => is_digit(b),
            ByteClass::Camel => is_camel_byte(b),
            ByteClass::Snake => is_snake_byte(b),
            ByteClass::Kebab => is_kebab_byte(b),
            ByteClass::NotByte(stop) => b != stop,
        }
    }

    /// Decides membership of `b` in the class.
    fn test(&self, b: u8) -> (r: bool)
        ensures
            r == self.holds(b),
    {
        match self {
            ByteClass::Whitespace => b == 32 || b == 9 || b == 10 || b == 13 || b == 0x0c,
            ByteClass::Digit => 48 <= b && b <= 57,
            ByteClass::Camel => (97 <= b && b <= 122) || (65 <= b && b <= 90),
            ByteClass::Snake => (97 <= b && b <= 122) || (65 <= b && b <= 90) || b == 95,
            ByteClass::Kebab => (97 <= b && b <= 122) || (65 <= b && b <= 90) || b == 45,
            ByteClass::NotByte(stop) => b != *stop,
        }
    }
}

/// Length of the maximal run of bytes of class `c` at offset `from` of `buf`.
fn run_len(buf: &[u8], from: usize, c: ByteClass) -> (n: usize)
    requires
        from <= buf@.len(),
    ensures
        from + n <= buf@.len(),
        forall|k: int| from <= k < from + n ==> c.holds(#[trigger] buf@[k]),
        from + n < buf@.len() ==> !c.holds(buf@[from + n]),
{
    let mut j = from;
    loop
        invariant
            from <= j <= buf@.len(),
            forall|k: int| from <= k < j ==> c.holds(#[trigger] buf@[k]),
        ensures
            from <= j <= buf@.len(),
            forall|k: int| from <= k < j ==> c.holds(#[trigger] buf@[k]),
            j == buf@.len() || !c.holds(buf@[j as int]),
        decreases buf@.len() - j,
    {
        if j >= buf.len() {
            break ;
        }
        if !c.test(buf[j]) {
            break ;
        }
        j = j + 1;
    }
    j - from
}

/// Recomputes the column at offset `pos` of `buf` by scanning back to the
/// previous newline, or to the start of the buffer when there is none.
fn column_at(buf: &[u8], pos: usize) -> (c: usize)
    requires
        pos <= buf@.len(),
        buf@.len() < usize::MAX,
    ensures
        c == col_of(buf@, pos as int),
{
    proof {
        lemma_col_from_last_newline(buf@, pos as int);
    }
    let mut j = pos;
    while j > 0
        invariant
            j <= pos <= buf@.len(),
            buf@.len() < usize::MAX,
            forall|k: int| j <= k < pos ==> buf@[k] != 10,
        decreases j,
    {
        if buf[j - 1] == 10 {
            proof {
                lemma_col_from_last_newline(buf@, pos as int);
                lemma_last_newline_skip(buf@, j as int, pos as int);
            }
            return pos - j + 1;
        }
        j = j - 1;
    }
    proof {
        lemma_last_newline_skip(buf@, 0, pos as int);
    }
    pos + 1
}

/// True when `token` appears byte-for-byte at offset `at` of `buf`.
fn matches_at(buf: &[u8], at: usize, token: &[u8]) -> (r: bool)
    requires
        at + token@.len() <= buf@.len(),
    ensures
        r == (buf@.subrange(at as int, at + token@.len()) == token@),
{
    let bl = buf.len();
    let n = token.len();
    let mut k: usize = 0;
    while k < n
        invariant
            k <= n == token@.len(),
            at + n <= bl == buf@.len(),
            forall|m: int| 0 <= m < k ==> buf@[at + m] == token@[m],
        decreases n - k,
    {
        if buf[at + k] != token[k] {
            proof {
                assert(buf@.subrange(at as int, at + token@.len())[k as int] == buf@[at + k]);
            }
            return false;
        }
        k = k + 1;
    }
    proof {
        assert(buf@.subrange(at as int, at + token@.len()) =~= token@);
    }
    true
}

/// Decimal value of `buf[from .. from + n]`, a run of ASCII digit bytes.
fn fold_digits(buf: &[u8], from: usize, n: usize) -> (v: usize)
    requires
        from + n <= buf@.len(),
        forall|k: int| from <= k < from + n ==> is_digit(#[trigger] buf@[k]),
        decimal_value(buf@.subrange(from as int, from + n)) <= usize::MAX,
    ensures
        v == decimal_value(buf@.subrange(from as int, from + n)),
{
    let ghost digits = buf@.subrange(from as int, from + n);
    let bl = buf.len();
    let mut v: usize = 0;
    let mut k: usize = 0;
    while k < n
        invariant
            k <= n,
            from + n <= bl == buf@.len(),
            digits == buf@.subrange(from as int, from + n),
            forall|m: int| from <= m < from + n ==> is_digit(#[trigger] buf@[m]),
            decimal_value(digits) <= usize::MAX,
            v == decimal_value(digits.take(k as int)),
        decreases n - k,
    {
        let d = buf[from + k];
        proof {
            assert forall|m: int| 0 <= m < digits.len() implies is_digit(
                #[trigger] digits[m],
            ) by {
                assert(digits[m] == buf@[from + m]);
            }
            assert(digits.take(k + 1).drop_last() =~= digits.take(k as int));
            assert(digits.take(k + 1).last() == digits[k as int]);
            lemma_decimal_value_prefix(digits, k + 1);
        }
        v = v * 10 + (d - 48) as usize;
        k = k + 1;
    }
    proof {
        assert(digits.take(n as int) =~= digits);
    }
    v
}

/// A single-pass, backtrackable cursor over an immutable byte buffer.
///
/// `index` is the current read offset; `line` and `column` are the 1-based
/// coordinates of that offset, where every consumed newline byte starts a
/// new line at column 1 and every other byte moves one column right.
pub struct Reader<'b> {
    /// The bytes being read; no operation ever changes them.
    pub buf: &'b [u8],
    /// Current read offset, between 0 and `buf.len()`.
    pub index: usize,
    /// 1-based line of the current read offset.
    pub line: usize,
    /// 1-based column of the current read offset.
    pub column: usize,
}

impl<'b> Reader<'b> {
    /// The cursor lies inside the buffer, and `line`/`column` are exactly
    /// the coordinates obtained by replaying the consumed prefix.
    pub open spec fn wf(self) -> bool {
        &&& self.buf@.len() < usize::MAX
        &&& self.index <= self.buf@.len()
        &&& self.line == line_of(self.buf@, self.index as int)
        &&& self.column == col_of(self.buf@, self.index as int)
    }

    /// The bytes from the cursor to the end of the buffer.
    pub open spec fn remaining_bytes(self) -> Seq<u8> {
        self.buf@.subrange(self.index as int, self.buf@.len() as int)
    }

    /// The remaining bytes start with `token`.
    pub open spec fn starts_with(self, token: Seq<u8>) -> bool {
        &&& self.index + token.len() <= self.buf@.len()
        &&& self.buf@.subrange(self.index as int, self.index + token.len()) == token
    }

    /// Creates a reader at the start of `content`, on line 1, column 1.
    /// Empty input is valid and immediately exhausted.
    pub fn new(content: &'b [u8]) -> (r: Reader<'b>)
        requires
            content@.len() < usize::MAX,
        ensures
            r.wf(),
            r.buf == content,
            r.index == 0,
            r.line == 1,
            r.column == 1,
    {
        Reader { buf: content, index: 0, line: 1, column: 1 }
    }

    /// The bytes not yet consumed, as a slice of the underlying buffer.
    pub fn remaining(&self) -> (r: &'b [u8])
        requires
            self.wf(),
        ensures
            r@ == self.remaining_bytes(),
    {
        slice_subrange(self.buf, self.index, self.buf.len())
    }

    /// Moves the cursor forward over `n` remaining bytes, updating the line
    /// and column for every byte passed.
    fn advance_scan_by(&mut self, n: usize)
        requires
            old(self).wf(),
            old(self).index + n <= old(self).buf@.len(),
        ensures
            final(self).wf(),
            final(self).buf == old(self).buf,
            final(self).index == old(self).index + n,
    {
        let end = self.index + n;
        while self.index < end
            invariant
                self.wf(),
                self.buf == old(self).buf,
                old(self).index <= self.index <= end,
                end <= self.buf@.len(),
                end == old(self).index + n,
            decreases end - self.index,
        {
            proof {
                lemma_line_col_bounds(self.buf@, self.index as int);
            }
            if self.buf[self.index] == 10 {
                self.line = self.line + 1;
                self.column = 1;
            } else {
                self.column = self.column + 1;
            }
            self.index = self.index + 1;
        }
    }

    /// Advances by `max` bytes, or to the end of the buffer when fewer
    /// bytes remain: over-large `max` saturates instead of failing.
    pub fn advance_by(&mut self, max: usize)
        requires
            old(self).wf(),
        ensures
            final(self).wf(),
            final(self).buf == old(self).buf,
            final(self).index == old(self).index + vstd::math::min(
                max as int,
                old(self).buf@.len() - old(self).index,
            ),
    {
        let rem = self.buf.len() - self.index;
        let n = if max < rem {
            max
        } else {
            rem
        };
        self.advance_scan_by(n);
    }

    /// Moves the cursor backward over `n` consumed bytes, recomputing the
    /// line and column for every byte passed.
    fn unwind_scan_by(&mut self, n: usize)
        requires
            old(self).wf(),
            n <= old(self).index,
        ensures
            final(self).wf(),
            final(self).buf == old(self).buf,
            final(self).index == old(self).index - n,
    {
        let end = self.index - n;
        while self.index > end
            invariant
                self.wf(),
                self.buf == old(self).buf,
                end <= self.index <= old(self).index,
            decreases self.index,
        {
            let here = self.index - 1;
            proof {
                lemma_line_col_bounds(self.buf@, here as int);
            }
            if self.buf[here] == 10 {
                let c = column_at(self.buf, here);
                self.line = self.line - 1;
                self.column = c;
            } else {
                self.column = self.column - 1;
            }
            self.index = here;
        }
    }

    /// Moves the cursor back by `max` bytes, or to the start of the buffer
    /// when fewer bytes were consumed: over-large `max` saturates.
    pub fn unwind_by(&mut self, max: usize)
        requires
            old(self).wf(),
        ensures
            final(self).wf(),
            final(self).buf == old(self).buf,
            final(self).index == old(self).index - vstd::math::min(
                max as int,
                old(self).index as int,
            ),
    {
        let n = if max < self.index {
            max
        } else {
            self.index
        };
        self.unwind_scan_by(n);
    }

    /// Skips the maximal run of leading bytes accepted by `condition`.
    pub fn skip_while<F: Fn(u8) -> bool>(&mut self, condition: F)
        requires
            old(self).wf(),
            forall|b: u8| call_requires(condition, (b,)),
        ensures
            final(self).wf(),
            final(self).buf == old(self).buf,
            old(self).index <= final(self).index <= final(self).buf@.len(),
            forall|k: int|
                old(self).index <= k < final(self).index ==> call_ensures(
                    condition,
                    (old(self).buf@[k],),
                    true,
                ),
            final(self).index < final(self).buf@.len() ==> call_ensures(
                condition,
                (final(self).buf@[final(self).index as int],),
                false,
            ),
    {
        loop
            invariant
                self.wf(),
                self.buf == old(self).buf,
                old(self).index <= self.index <= self.buf@.len(),
                forall|b: u8| call_requires(condition, (b,)),
                forall|k: int|
                    old(self).index <= k < self.index ==> call_ensures(
                        condition,
                        (self.buf@[k],),
                        true,
                    ),
            ensures
                self.index == self.buf@.len() || call_ensures(
                    condition,
                    (self.buf@[self.index as int],),
                    false,
                ),
            decreases self.buf@.len() - self.index,
        {
            if self.index >= self.buf.len() {
                break ;
            }
            if !condition(self.buf[self.index]) {
                break ;
            }
            self.advance_scan_by(1);
        }
    }

    /// Skips the maximal run of leading ASCII whitespace bytes.
    pub fn skip_whitespace(&mut self)
        requires
            old(self).wf(),
        ensures
            final(self).wf(),
            final(self).buf == old(self).buf,
            old(self).index <= final(self).index <= final(self).buf@.len(),
            forall|k: int|
                old(self).index <= k < final(self).index ==> is_whitespace(
                    #[trigger] old(self).buf@[k],
                ),
            final(self).index < final(self).buf@.len() ==> !is_whitespace(
                final(self).buf@[final(self).index as int],
            ),
            final(self).index == old(self).index + run_length(
                old(self).buf@,
                old(self).index as int,
                whitespace_pred(),
            ),
    {
        let n = run_len(self.buf, self.index, ByteClass::Whitespace);
        proof {
            lemma_run_length_unique(
                self.buf@,
                self.index as int,
                self.index as int + n,
                whitespace_pred(),
            );
        }
        self.advance_scan_by(n);
    }

    /// Consumes the maximal run of leading bytes accepted by `condition`
    /// and returns it as a slice of the underlying buffer; the run may be
    /// empty.
    pub fn read_while<F: Fn(u8) -> bool>(&mut self, condition: F) -> (r: &'b [u8])
        requires
            old(self).wf(),
            forall|b: u8| call_requires(condition, (b,)),
        ensures
            final(self).wf(),
            final(self).buf == old(self).buf,
            old(self).index <= final(self).index <= final(self).buf@.len(),
            r@ == old(self).buf@.subrange(old(self).index as int, final(self).index as int),
            forall|k: int|
                old(self).index <= k < final(self).index ==> call_ensures(
                    condition,
                    (old(self).buf@[k],),
                    true,
                ),
            final(self).index < final(self).buf@.len() ==> call_ensures(
                condition,
                (final(self).buf@[final(self).index as int],),
                false,
            ),
    {
        let start = self.index;
        self.skip_while(condition);
        slice_subrange(self.buf, start, self.index)
    }

    /// Consumes and returns the next byte, or fails when the buffer is
    /// exhausted.
    pub fn next(&mut self) -> (r: Option<u8>)
        requires
            old(self).wf(),
        ensures
            final(self).wf(),
            final(self).buf == old(self).buf,
            old(self).index < old(self).buf@.len() ==> r == Some(
                old(self).buf@[old(self).index as int],
            ) && final(self).index == old(self).index + 1,
            old(self).index == old(self).buf@.len() ==> r is None && final(self).index == old(self).index,
    {
        if self.index < self.buf.len() {
            let b = self.buf[self.index];
            self.advance_scan_by(1);
            Some(b)
        } else {
            None
        }
    }

    /// Consumes and returns the next byte only when `condition` accepts it;
    /// otherwise leaves the cursor untouched and fails.
    pub fn next_if<F: Fn(u8) -> bool>(&mut self, condition: F) -> (r: Option<u8>)
        requires
            old(self).wf(),
            forall|b: u8| call_requires(condition, (b,)),
        ensures
            final(self).wf(),
            final(self).buf == old(self).buf,
            r matches Some(b) ==> old(self).index < old(self).buf@.len() && b == old(self).buf@[old(self).index as int] && call_ensures(condition, (b,), true) && final(self).index == old(self).index + 1,
            r is None ==> final(self).index == old(self).index && (old(self).index == old(self).buf@.len() || call_ensures(
                condition,
                (old(self).buf@[old(self).index as int],),
                false,
            )),
    {
        if self.index < self.buf.len() {
            let b = self.buf[self.index];
            if condition(b) {
                self.advance_scan_by(1);
                Some(b)
            } else {
                None
            }
        } else {
            None
        }
    }

    /// Consumes `token` when the remaining bytes start with it; otherwise
    /// leaves the cursor untouched and fails. A token longer than the
    /// remaining bytes never matches.
    pub fn consume(&mut self, token: &[u8]) -> (r: Option<()>)
        requires
            old(self).wf(),
        ensures
            final(self).wf(),
            final(self).buf == old(self).buf,
            old(self).starts_with(token@) ==> r == Some(()) && final(self).index == old(self).index + token@.len(),
            !old(self).starts_with(token@) ==> r is None && final(self).index == old(self).index,
    {
        let n = token.len();
        if self.buf.len() - self.index < n {
            return None;
        }
        if matches_at(self.buf, self.index, token) {
            self.advance_scan_by(n);
            Some(())
        } else {
            None
        }
    }

    /// Consumes the first token of `tokens` that prefixes the remaining
    /// bytes and returns its position in `tokens`; consumes nothing when no
    /// token matches. Earlier tokens win, so overlapping tokens must be
    /// ordered most-specific first by the caller.
    pub fn consume_oneof<const N: usize>(&mut self, tokens: [&[u8]; N]) -> (r: Option<usize>)
        requires
            old(self).wf(),
        ensures
            final(self).wf(),
            final(self).buf == old(self).buf,
            r matches Some(i) ==> i < N && old(self).starts_with(tokens@[i as int]@) && (forall|
                j: int,
            |
                0 <= j < i ==> !old(self).starts_with(#[trigger] tokens@[j]@)) && final(self).index
                == old(self).index + tokens@[i as int]@.len(),
            r is None ==> final(self).index == old(self).index && (forall|j: int|
                0 <= j < N ==> !old(self).starts_with(#[trigger] tokens@[j]@)),
    {
        let toks: &[&[u8]] = tokens.as_slice();
        let mut i: usize = 0;
        while i < toks.len()
            invariant
                self == old(self),
                self.wf(),
                toks@ == tokens@,
                i <= N == toks@.len(),
                forall|j: int| 0 <= j < i ==> !self.starts_with(#[trigger] tokens@[j]@),
            decreases toks@.len() - i,
        {
            let token = toks[i];
            let n = token.len();
            if n <= self.buf.len() - self.index && matches_at(self.buf, self.index, token) {
                self.advance_scan_by(n);
                return Some(i);
            }
            i = i + 1;
        }
        None
    }

    /// The maximal run of ASCII digit bytes at the cursor.
    pub open spec fn digit_run(self) -> Seq<u8> {
        self.buf@.subrange(
            self.index as int,
            self.index + run_length(self.buf@, self.index as int, digit_pred()),
        )
    }

    /// The maximal run of ASCII digit bytes after a leading `-` when one is
    /// present, else at the cursor.
    pub open spec fn int_digit_run(self) -> Seq<u8> {
        if self.index < self.buf@.len() && self.buf@[self.index as int] == 45 {
            self.buf@.subrange(
                self.index + 1,
                self.index + 1 + run_length(self.buf@, self.index + 1, digit_pred()),
            )
        } else {
            self.digit_run()
        }
    }

    /// Reads a maximal nonempty run of `camelCase` bytes — ASCII letters —
    /// as text; fails without consuming when the run is empty.
    pub fn read_camel(&mut self) -> (r: Option<String>)
        requires
            old(self).wf(),
        ensures
            final(self).wf(),
            final(self).buf == old(self).buf,
            ({
                let s = old(self).buf@;
                let i = old(self).index as int;
                let n = run_length(s, i, camel_pred());
                if n == 0 {
                    r is None && final(self).index == old(self).index
                } else {
                    &&& r matches Some(t) && t@ == ascii_chars(s.subrange(i, i + n))
                    &&& final(self).index == i + n
                }
            }),
    {
        let n = run_len(self.buf, self.index, ByteClass::Camel);
        proof {
            lemma_run_length_unique(
                self.buf@,
                self.index as int,
                self.index as int + n,
                camel_pred(),
            );
        }
        if n == 0 {
            return None;
        }
        self.read_ascii_run(n)
    }

    /// Reads a maximal nonempty run of `snake_case` bytes — ASCII letters
    /// and underscores — as text; fails without consuming when the run is
    /// empty.
    pub fn read_snake(&mut self) -> (r: Option<String>)
        requires
            old(self).wf(),
        ensures
            final(self).wf(),
            final(self).buf == old(self).buf,
            ({
                let s = old(self).buf@;
                let i = old(self).index as int;
                let n = run_length(s, i, snake_pred());
                if n == 0 {
                    r is None && final(self).index == old(self).index
                } else {
                    &&& r matches Some(t) && t@ == ascii_chars(s.subrange(i, i + n))
                    &&& final(self).index == i + n
                }
            }),
    {
        let n = run_len(self.buf, self.index, ByteClass::Snake);
        proof {
            lemma_run_length_unique(
                self.buf@,
                self.index as int,
                self.index as int + n,
                snake_pred(),
            );
        }
        if n == 0 {
            return None;
        }
        self.read_ascii_run(n)
    }

    /// Reads a maximal nonempty run of `kebab-case` bytes — ASCII letters
    /// and hyphens — as text; fails without consuming when the run is empty.
    pub fn read_kebab(&mut self) -> (r: Option<String>)
        requires
            old(self).wf(),
        ensures
            final(self).wf(),
            final(self).buf == old(self).buf,
            ({
                let s = old(self).buf@;
                let i = old(self).index as int;
                let n = run_length(s, i, kebab_pred());
                if n == 0 {
                    r is None && final(self).index == old(self).index
                } else {
                    &&& r matches Some(t) && t@ == ascii_chars(s.subrange(i, i + n))
                    &&& final(self).index == i + n
                }
            }),
    {
        let n = run_len(self.buf, self.index, ByteClass::Kebab);
        proof {
            lemma_run_length_unique(
                self.buf@,
                self.index as int,
                self.index as int + n,
                kebab_pred(),
            );
        }
        if n == 0 {
            return None;
        }
        self.read_ascii_run(n)
    }

    /// Consumes the next `n` bytes, known to be ASCII, and returns them
    /// decoded as text.
    fn read_ascii_run(&mut self, n: usize) -> (r: Option<String>)
        requires
            old(self).wf(),
            old(self).index + n <= old(self).buf@.len(),
            forall|k: int|
                old(self).index <= k < old(self).index + n ==> #[trigger] old(self).buf@[k] < 0x80,
        ensures
            final(self).wf(),
            final(self).buf == old(self).buf,
            final(self).index == old(self).index + n,
            r matches Some(t) && t@ == ascii_chars(
                old(self).buf@.subrange(old(self).index as int, old(self).index + n),
            ),
    {
        let raw = slice_subrange(self.buf, self.index, self.index + n);
        proof {
            lemma_ascii_utf8(raw@);
        }
        match utf8_to_str(raw) {
            Some(st) => {
                let t = st.to_owned();
                self.advance_scan_by(n);
                Some(t)
            },
            None => {
                proof {
                    assert(false);
                }
                None
            },
        }
    }

    /// Reads all bytes enclosed between `left` and `right`: the next byte
    /// must equal `left`, and the interior runs to the first `right` after
    /// it. Consumes both delimiters and the interior and returns the
    /// interior; fails without consuming when either delimiter is missing.
    pub fn read_quoted_by(&mut self, left: u8, right: u8) -> (r: Option<&'b [u8]>)
        requires
            old(self).wf(),
        ensures
            final(self).wf(),
            final(self).buf == old(self).buf,
            ({
                let s = old(self).buf@;
                let i = old(self).index as int;
                let m = run_length(s, i + 1, ne_pred(right));
                if i < s.len() && s[i] == left && i + 1 + m < s.len() {
                    &&& r matches Some(v) && v@ == s.subrange(i + 1, i + 1 + m)
                    &&& final(self).index == i + 2 + m
                } else {
                    r is None && final(self).index == old(self).index
                }
            }),
    {
        if self.index >= self.buf.len() || self.buf[self.index] != left {
            return None;
        }
        let m = run_len(self.buf, self.index + 1, ByteClass::NotByte(right));
        proof {
            lemma_run_length_unique(
                self.buf@,
                self.index as int + 1,
                self.index as int + 1 + m,
                ne_pred(right),
            );
        }
        if m >= self.buf.len() - self.index - 1 {
            return None;
        }
        let start = self.index + 1;
        let v = slice_subrange(self.buf, start, start + m);
        self.advance_scan_by(m + 2);
        Some(v)
    }

    /// Reads a double-quoted UTF-8 string literal and returns the interior
    /// as text. Fails without consuming when a quote is missing or the
    /// interior is not valid UTF-8. Escape sequences are not interpreted.
    pub fn read_string(&mut self) -> (r: Option<String>)
        requires
            old(self).wf(),
        ensures
            final(self).wf(),
            final(self).buf == old(self).buf,
            ({
                let s = old(self).buf@;
                let i = old(self).index as int;
                let m = run_length(s, i + 1, ne_pred(34));
                let interior = s.subrange(i + 1, i + 1 + m);
                if i < s.len() && s[i] == 34 && i + 1 + m < s.len() && valid_utf8(interior) {
                    &&& r matches Some(t) && t@ == decode_utf8(interior)
                    &&& final(self).index == i + 2 + m
                } else {
                    r is None && final(self).index == old(self).index
                }
            }),
    {
        if self.index >= self.buf.len() || self.buf[self.index] != 34 {
            return None;
        }
        let m = run_len(self.buf, self.index + 1, ByteClass::NotByte(34));
        proof {
            lemma_run_length_unique(
                self.buf@,
                self.index as int + 1,
                self.index as int + 1 + m,
                ne_pred(34),
            );
        }
        if m >= self.buf.len() - self.index - 1 {
            return None;
        }
        let start = self.index + 1;
        let interior = slice_subrange(self.buf, start, start + m);
        match utf8_to_str(interior) {
            Some(st) => {
                let t = st.to_owned();
                self.advance_scan_by(m + 2);
                Some(t)
            },
            None => None,
        }
    }

    /// The validation-skipping variant of the quoted-literal reader: the
    /// caller guarantees — here, proves — that the quoted bytes, when both
    /// quotes are present, are valid UTF-8, and the read then never fails
    /// for want of valid text.
    pub fn read_string_unchecked(&mut self) -> (r: Option<String>)
        requires
            old(self).wf(),
            ({
                let s = old(self).buf@;
                let i = old(self).index as int;
                let m = run_length(s, i + 1, ne_pred(34));
                (i < s.len() && s[i] == 34 && i + 1 + m < s.len()) ==> valid_utf8(
                    s.subrange(i + 1, i + 1 + m),
                )
            }),
        ensures
            final(self).wf(),
            final(self).buf == old(self).buf,
            ({
                let s = old(self).buf@;
                let i = old(self).index as int;
                let m = run_length(s, i + 1, ne_pred(34));
                if i < s.len() && s[i] == 34 && i + 1 + m < s.len() {
                    &&& r matches Some(t) && t@ == decode_utf8(s.subrange(i + 1, i + 1 + m))
                    &&& final(self).index == i + 2 + m
                } else {
                    r is None && final(self).index == old(self).index
                }
            }),
    {
        self.read_string()
    }

    /// Reads a maximal nonempty run of ASCII digits as an unsigned integer;
    /// fails without consuming when no digit is present. The digits must
    /// denote a value that fits in `usize`: larger literals are out of this
    /// reader's range.
    pub fn read_uint(&mut self) -> (r: Option<usize>)
        requires
            old(self).wf(),
            decimal_value(old(self).digit_run()) <= usize::MAX,
        ensures
            final(self).wf(),
            final(self).buf == old(self).buf,
            old(self).digit_run().len() == 0 ==> r is None && final(self).index == old(
                self,
            ).index,
            old(self).digit_run().len() > 0 ==> r == Some(
                decimal_value(old(self).digit_run()) as usize,
            ) && final(self).index == old(self).index + old(self).digit_run().len(),
    {
        let n = run_len(self.buf, self.index, ByteClass::Digit);
        proof {
            lemma_run_length_unique(
                self.buf@,
                self.index as int,
                self.index as int + n,
                digit_pred(),
            );
        }
        if n == 0 {
            return None;
        }
        let v = fold_digits(self.buf, self.index, n);
        self.advance_scan_by(n);
        Some(v)
    }

    /// Reads a run of ASCII digits, optionally preceded by `-`, as a signed
    /// integer; fails without consuming anything — not even the `-` — when
    /// no digit is present. The digits must denote a magnitude that fits in
    /// `isize`: larger literals are out of this reader's range.
    pub fn read_int(&mut self) -> (r: Option<isize>)
        requires
            old(self).wf(),
            decimal_value(old(self).int_digit_run()) <= isize::MAX,
        ensures
            final(self).wf(),
            final(self).buf == old(self).buf,
            ({
                let s = old(self).buf@;
                let i = old(self).index as int;
                let run = old(self).int_digit_run();
                if run.len() == 0 {
                    r is None && final(self).index == old(self).index
                } else if i < s.len() && s[i] == 45 {
                    &&& r matches Some(v) && v as int == -decimal_value(run)
                    &&& final(self).index == i + 1 + run.len()
                } else {
                    &&& r matches Some(v) && v as int == decimal_value(run)
                    &&& final(self).index == i + run.len()
                }
            }),
    {
        if self.index < self.buf.len() && self.buf[self.index] == 45 {
            let n = run_len(self.buf, self.index + 1, ByteClass::Digit);
            proof {
                lemma_run_length_unique(
                    self.buf@,
                    self.index as int + 1,
                    self.index as int + 1 + n,
                    digit_pred(),
                );
            }
            if n == 0 {
                return None;
            }
            let mag = fold_digits(self.buf, self.index + 1, n);
            let v: isize = -(mag as isize);
            self.advance_scan_by(n + 1);
            Some(v)
        } else {
            proof {
                lemma_run_length_spec(self.buf@, self.index as int, digit_pred());
                assert forall|m: int| 0 <= m < self.digit_run().len() implies is_digit(
                    #[trigger] self.digit_run()[m],
                ) by {
                    assert(self.digit_run()[m] == self.buf@[self.index + m]);
                    assert(digit_pred()(self.buf@[self.index + m]));
                }
                lemma_decimal_value_nonneg(self.digit_run());
            }
            match self.read_uint() {
                Some(u) => Some(u as isize),
                None => None,
            }
        }
    }

    /// The next byte, without consuming it.
    pub fn peek(&self) -> (r: Option<u8>)
        requires
            self.wf(),
        ensures
            r == (if self.index < self.buf@.len() {
                Some(self.buf@[self.index as int])
            } else {
                None::<u8>
            }),
    {
        if self.index < self.buf.len() {
            Some(self.buf[self.index])
        } else {
            None
        }
    }

    /// The byte after the next one, without consuming anything.
    pub fn peek2(&self) -> (r: Option<u8>)
        requires
            self.wf(),
        ensures
            r == (if self.index + 1 < self.buf@.len() {
                Some(self.buf@[self.index + 1])
            } else {
                None::<u8>
            }),
    {
        if self.buf.len() - self.index > 1 {
            Some(self.buf[self.index + 1])
        } else {
            None
        }
    }

    /// The byte two places after the next one, without consuming anything.
    pub fn peek3(&self) -> (r: Option<u8>)
        requires
            self.wf(),
        ensures
            r == (if self.index + 2 < self.buf@.len() {
                Some(self.buf@[self.index + 2])
            } else {
                None::<u8>
            }),
    {
        if self.buf.len() - self.index > 2 {
            Some(self.buf[self.index + 2])
        } else {
            None
        }
    }
}

} // verus!
