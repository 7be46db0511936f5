//! The mathematical model of scanning: byte classes, maximal runs of
//! bytes satisfying a predicate, and the decimal value of a digit run.

use vstd::prelude::*;

verus! {

/// ASCII whitespace: space, tab, newline, carriage return or form feed.
pub open spec fn is_whitespace(b: u8) -> bool {
    b == 32 || b == 9 || b == 10 || b == 13 || b == 0x0c
}

/// ASCII decimal digit.
pub open spec fn is_digit(b: u8) -> bool {
    48 <= b <= 57
}

/// ASCII letter.
pub open spec fn is_letter(b: u8) -> bool {
    (97 <= b <= 122) || (65 <= b <= 90)
}

/// Byte allowed in a `camelCase` word: a letter.
pub open spec fn is_camel_byte(b: u8) -> bool {
    is_letter(b)
}

/// Byte allowed in a `snake_case` word: a letter or an underscore.
pub open spec fn is_snake_byte(b: u8) -> bool {
    is_letter(b) || b == 95
}

/// Byte allowed in a `kebab-case` word: a letter or a hyphen.
pub open spec fn is_kebab_byte(b: u8) -> bool {
    is_letter(b) || b == 45
}

/// The whitespace class as a predicate value.
pub open spec fn whitespace_pred() -> spec_fn(u8) -> bool {
    |b: u8| is_whitespace(b)
}

/// The digit class as a predicate value.
pub open spec fn digit_pred() -> spec_fn(u8) -> bool {
    |b: u8| is_digit(b)
}

/// The `camelCase` class as a predicate value.
pub open spec fn camel_pred() -> spec_fn(u8) -> bool {
    |b: u8| is_camel_byte(b)
}

/// The `snake_case` class as a predicate value.
pub open spec fn snake_pred() -> spec_fn(u8) -> bool {
    |b: u8| is_snake_byte(b)
}

/// The `kebab-case` class as a predicate value.
pub open spec fn kebab_pred() -> spec_fn(u8) -> bool {
    |b: u8| is_kebab_byte(b)
}

/// The class of bytes other than `stop`, as a predicate value.
pub open spec fn ne_pred(stop: u8) -> spec_fn(u8) -> bool {
    |b: u8| b != stop
}

/// Number of leading bytes of `s`, counting from offset `i`, that satisfy `p`.
pub open spec fn run_length(s: Seq<u8>, i: int, p: spec_fn(u8) -> bool) -> int
    decreases s.len() - i,
{
    if i < 0 || i >= s.len() || !p(s[i]) {
        0
    } else {
        1 + run_length(s, i + 1, p)
    }
}

/// The run at `i` stays inside `s`, consists of bytes satisfying `p`, and
/// stops at the first byte that does not satisfy `p`.
pub proof fn lemma_run_length_spec(s: Seq<u8>, i: int, p: spec_fn(u8) -> bool)
    requires
        0 <= i <= s.len(),
    ensures
        0 <= run_length(s, i, p),
        i + run_length(s, i, p) <= s.len(),
        forall|k: int| i <= k < i + run_length(s, i, p) ==> #[trigger] p(s[k]),
        i + run_length(s, i, p) < s.len() ==> !p(s[i + run_length(s, i, p)]),
    decreases s.len() - i,
{
    if i < s.len() && p(s[i]) {
        lemma_run_length_spec(s, i + 1, p);
    }
}

/// Any maximal run of bytes satisfying `p` — one that stops only at the end
/// of the buffer or at a byte that fails `p` — has exactly the length of
/// the leading run. In other words, the run at `i` is unique.
pub proof fn lemma_run_length_unique(s: Seq<u8>, i: int, j: int, p: spec_fn(u8) -> bool)
    requires
        0 <= i <= j <= s.len(),
        forall|k: int| i <= k < j ==> #[trigger] p(s[k]),
        j == s.len() || !p(s[j]),
    ensures
        j - i == run_length(s, i, p),
    decreases j - i,
{
    if i < j {
        lemma_run_length_unique(s, i + 1, j, p);
    }
}

/// Value of a sequence of ASCII digit bytes read as a decimal number.
pub open spec fn decimal_value(digits: Seq<u8>) -> int
    decreases digits.len(),
{
    if digits.len() == 0 {
        0
    } else {
        decimal_value(digits.drop_last()) * 10 + (digits.last() - 48)
    }
}

/// A digit run denotes a non-negative value.
pub proof fn lemma_decimal_value_nonneg(digits: Seq<u8>)
    requires
        forall|k: int| 0 <= k < digits.len() ==> is_digit(#[trigger] digits[k]),
    ensures
        0 <= decimal_value(digits),
    decreases digits.len(),
{
    if digits.len() > 0 {
        lemma_decimal_value_nonneg(digits.drop_last());
    }
}

/// Dropping trailing digits can only shrink the denoted value.
pub proof fn lemma_decimal_value_prefix(digits: Seq<u8>, k: int)
    requires
        0 <= k <= digits.len(),
        forall|m: int| 0 <= m < digits.len() ==> is_digit(#[trigger] digits[m]),
    ensures
        decimal_value(digits.take(k)) <= decimal_value(digits),
    decreases digits.len() - k,
{
    if k < digits.len() {
        lemma_decimal_value_prefix(digits, k + 1);
        assert(digits.take(k + 1).drop_last() =~= digits.take(k));
        lemma_decimal_value_nonneg(digits.take(k));
    } else {
        assert(digits.take(k) =~= digits);
    }
}

} // verus!
