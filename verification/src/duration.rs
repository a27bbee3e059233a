//! Time spans: the grammar of their spellings, which is scanned here before
//! the duration parser is asked for the span, and their canonical spelling.

use crate::codec::{scalar_text, text_of_scalar, Codec};
use crate::error::{ConfigError, Expected, Fault};
use crate::text::{decimal, decimal_text, digit_char};
use crate::tree::{Node, Tree};
use vstd::prelude::*;
use vstd::utf8::*;

verus! {

/// A time span: whole seconds and the nanoseconds of the second begun. A
/// valid span has fewer than a thousand million nanoseconds.
#[derive(Clone, Copy, Debug, PartialEq, Eq, Structural)]
pub struct Duration {
    /// Whole seconds.
    pub secs: u64,
    /// Nanoseconds beyond the whole seconds.
    pub nanos: u32,
}

/// The number of nanoseconds in a second.
pub const NANOS_PER_SEC: u32 = 1_000_000_000;

/// The kinds of character that a spelling is made of.
#[derive(Clone, Copy, Debug, PartialEq, Eq, Structural)]
pub enum Kind {
    /// The space.
    Space,
    /// A decimal digit.
    Digit,
    /// A letter of the ASCII alphabet, small or capital.
    Letter,
}

/// Whether a character is a decimal digit.
pub open spec fn is_digit(c: char) -> bool {
    '0' <= c <= '9'
}

/// Whether a character is a letter of the ASCII alphabet.
pub open spec fn is_letter(c: char) -> bool {
    'a' <= c <= 'z' || 'A' <= c <= 'Z'
}

/// Whether a character is of a kind.
pub open spec fn is_kind(c: char, kind: Kind) -> bool {
    match kind {
        Kind::Space => c == ' ',
        Kind::Digit => is_digit(c),
        Kind::Letter => is_letter(c),
    }
}

/// The number of characters of one kind that stand in a row from `i` on.
pub open spec fn run_len(t: Seq<char>, i: int, kind: Kind) -> nat
    decreases t.len() - i,
{
    if 0 <= i < t.len() && is_kind(t[i], kind) {
        1 + run_len(t, i + 1, kind)
    } else {
        0
    }
}

/// The number that a digit writes.
pub open spec fn digit_value(c: char) -> nat {
    (c as u32 - '0' as u32) as nat
}

/// The number that the characters from `i` up to `j` write in decimal.
pub open spec fn digits_value(t: Seq<char>, i: int, j: int) -> nat
    decreases j - i,
{
    if j <= i {
        0
    } else {
        digits_value(t, i, j - 1) * 10 + digit_value(t[j - 1])
    }
}

/// What the pairs of a spelling add up to: the seconds of the pairs in
/// hours, minutes and seconds, and the nanoseconds of the pairs in
/// milliseconds, microseconds and nanoseconds.
pub struct Sum {
    pub secs: nat,
    pub nanos: nat,
}

/// What one of a unit is worth, in seconds and nanoseconds. The units are
/// `h`, `m`, `s`, `ms`, `us` and `ns`, exactly so written; no other text is
/// a unit.
pub open spec fn unit_worth(unit: Seq<char>) -> Option<Sum> {
    if unit.len() == 1 && unit[0] == 'h' {
        Some(Sum { secs: 3600, nanos: 0 })
    } else if unit.len() == 1 && unit[0] == 'm' {
        Some(Sum { secs: 60, nanos: 0 })
    } else if unit.len() == 1 && unit[0] == 's' {
        Some(Sum { secs: 1, nanos: 0 })
    } else if unit.len() == 2 && unit[0] == 'm' && unit[1] == 's' {
        Some(Sum { secs: 0, nanos: 1_000_000 })
    } else if unit.len() == 2 && unit[0] == 'u' && unit[1] == 's' {
        Some(Sum { secs: 0, nanos: 1_000 })
    } else if unit.len() == 2 && unit[0] == 'n' && unit[1] == 's' {
        Some(Sum { secs: 0, nanos: 1 })
    } else {
        None
    }
}

/// What the pairs from position `i` on add up to, or `None` where the text
/// from there on is not made of pairs. A pair is a run of one or more digits
/// and, right behind it, the run of letters that is its unit. Spaces may
/// stand before a pair and after the last one, and nothing else may stand
/// anywhere. Every pair counts once, wherever it stands.
pub open spec fn sum_from(t: Seq<char>, i: int) -> Option<Sum>
    decreases t.len() - i,
{
    let number = i + run_len(t, i, Kind::Space);
    let unit = number + run_len(t, number, Kind::Digit);
    let rest = unit + run_len(t, unit, Kind::Letter);
    if number >= t.len() {
        Some(Sum { secs: 0, nanos: 0 })
    } else if unit == number || rest > t.len() {
        None
    } else {
        match (unit_worth(t.subrange(unit, rest)), sum_from(t, rest)) {
            (Some(worth), Some(more)) => {
                let n = digits_value(t, number, unit);
                Some(Sum { secs: n * worth.secs + more.secs, nanos: n * worth.nanos + more.nanos })
            },
            _ => None,
        }
    }
}

/// What the pairs of a spelling add up to, or `None` where the text is not
/// made of pairs or holds no pair at all.
pub open spec fn sum_of(t: Seq<char>) -> Option<Sum> {
    if run_len(t, 0, Kind::Space) >= t.len() {
        None
    } else {
        sum_from(t, 0)
    }
}

/// Whether a sum is in range: it comes to no more whole seconds than 64
/// bits hold.
pub open spec fn in_range(sum: Sum) -> bool {
    sum.secs + sum.nanos / (NANOS_PER_SEC as nat) <= u64::MAX
}

/// Whether a sum is within what the duration parser works in: it is in
/// range, and its nanoseconds stay a second below what 64 bits hold.
pub open spec fn in_parser_range(sum: Sum) -> bool {
    in_range(sum) && sum.nanos + NANOS_PER_SEC <= u64::MAX
}

/// The span that a sum in range comes to.
pub open spec fn span_of(sum: Sum) -> Duration {
    Duration {
        secs: (sum.secs + sum.nanos / (NANOS_PER_SEC as nat)) as u64,
        nanos: (sum.nanos % (NANOS_PER_SEC as nat)) as u32,
    }
}

/// What a text is read as where a duration is wanted: the span that its
/// pairs add up to. A text that is not made of pairs, that holds a unit
/// other than the six, or whose sum is out of range is no duration.
pub open spec fn duration_of_text(t: Seq<char>) -> Result<Duration, Fault> {
    match sum_of(t) {
        Some(sum) => if in_range(sum) {
            Ok(span_of(sum))
        } else {
            Err(Fault::InvalidDuration(t))
        },
        None => Err(Fault::InvalidDuration(t)),
    }
}

/// What the duration parser's outcome for a text is taken as: the span it
/// found, where it found one with fewer than a thousand million
/// nanoseconds, and no duration else.
pub open spec fn span_of_parsed(t: Seq<char>, parsed: Option<(u64, u32)>) -> Result<
    Duration,
    Fault,
> {
    match parsed {
        Some((secs, nanos)) => if nanos < NANOS_PER_SEC {
            Ok(Duration { secs, nanos })
        } else {
            Err(Fault::InvalidDuration(t))
        },
        None => Err(Fault::InvalidDuration(t)),
    }
}

/// The canonical spelling of a span: the seconds in decimal, `s`, a space,
/// the nanoseconds in decimal, `ns`.
pub open spec fn span_text(secs: u64, nanos: u32) -> Seq<char> {
    decimal(secs as nat) + seq!['s', ' '] + decimal(nanos as nat) + seq!['n', 's']
}

/// A row of characters of one kind that ends at `e` is the run from `i`.
pub proof fn lemma_run(t: Seq<char>, i: int, e: int, kind: Kind)
    requires
        0 <= i <= e <= t.len(),
        forall|k: int| i <= k < e ==> is_kind(#[trigger] t[k], kind),
        e == t.len() || !is_kind(t[e], kind),
    ensures
        run_len(t, i, kind) == e - i,
    decreases e - i,
{
    if i < e {
        assert(is_kind(t[i], kind));
        lemma_run(t, i + 1, e, kind);
    }
}

/// Every character of a run is of the run's kind, and the run ends before
/// the text does or at its end.
pub proof fn lemma_run_members(t: Seq<char>, i: int, kind: Kind)
    requires
        0 <= i,
    ensures
        i + run_len(t, i, kind) <= t.len() || run_len(t, i, kind) == 0,
        forall|k: int| i <= k < i + run_len(t, i, kind) ==> is_kind(#[trigger] t[k], kind),
    decreases t.len() - i,
{
    if i < t.len() && is_kind(t[i], kind) {
        lemma_run_members(t, i + 1, kind);
    }
}

/// A text whose pairs from `i` on add up holds nothing from there on but
/// spaces, digits and letters.
pub proof fn lemma_sum_ascii(t: Seq<char>, i: int)
    requires
        0 <= i,
        sum_from(t, i) is Some,
    ensures
        forall|k: int| i <= k < t.len() ==> '\0' <= #[trigger] t[k] <= '\u{7f}',
    decreases t.len() - i,
{
    let number = i + run_len(t, i, Kind::Space);
    let unit = number + run_len(t, number, Kind::Digit);
    let rest = unit + run_len(t, unit, Kind::Letter);
    lemma_run_members(t, i, Kind::Space);
    lemma_run_members(t, number, Kind::Digit);
    lemma_run_members(t, unit, Kind::Letter);
    if number < t.len() {
        lemma_sum_ascii(t, rest);
        assert forall|k: int| i <= k < t.len() implies '\0' <= #[trigger] t[k] <= '\u{7f}' by {
            if k < number {
                assert(is_kind(t[k], Kind::Space));
            } else if k < unit {
                assert(is_kind(t[k], Kind::Digit));
            } else if k < rest {
                assert(is_kind(t[k], Kind::Letter));
            }
        }
    } else {
        assert forall|k: int| i <= k < t.len() implies '\0' <= #[trigger] t[k] <= '\u{7f}' by {
            assert(is_kind(t[k], Kind::Space));
        }
    }
}

/// What was added up so far together with what the rest of the text adds
/// up to.
pub open spec fn add_sum(done: Sum, more: Option<Sum>) -> Option<Sum> {
    match more {
        Some(more) => Some(
            Sum { secs: done.secs + more.secs, nanos: done.nanos + more.nanos },
        ),
        None => None,
    }
}

/// The decimal spelling of a number is a run of digits that writes it.
pub proof fn lemma_decimal_digits(n: nat)
    ensures
        decimal(n).len() >= 1,
        forall|i: int| 0 <= i < decimal(n).len() ==> is_digit(#[trigger] decimal(n)[i]),
        digits_value(decimal(n), 0, decimal(n).len() as int) == n,
    decreases n,
{
    let t = decimal(n);
    if n < 10 {
        assert(digits_value(t, 0, 0) == 0);
        assert(digits_value(t, 0, 1) == digit_value(t[0]));
    } else {
        let head = decimal(n / 10);
        lemma_decimal_digits(n / 10);
        assert(t == head.push(digit_char((n % 10) as int)));
        assert forall|i: int| 0 <= i < t.len() implies is_digit(#[trigger] t[i]) by {
            if i < head.len() {
                assert(t[i] == head[i]);
            }
        }
        lemma_digits_frame(t, 0, head, 0, head.len() as int);
    }
}

/// The number that a run of digits writes depends on the run alone.
pub proof fn lemma_digits_frame(t: Seq<char>, i: int, u: Seq<char>, k: int, n: int)
    requires
        0 <= n,
        forall|x: int| i <= x < i + n ==> #[trigger] t[x] == u[x - i + k],
    ensures
        digits_value(t, i, i + n) == digits_value(u, k, k + n),
    decreases n,
{
    if n > 0 {
        lemma_digits_frame(t, i, u, k, n - 1);
        assert(t[i + n - 1] == u[i + n - 1 - i + k]);
    }
}

/// A longer run of digits writes no smaller a number.
pub proof fn lemma_digits_grow(t: Seq<char>, i: int, j: int, k: int)
    requires
        i <= j <= k,
    ensures
        digits_value(t, i, j) <= digits_value(t, i, k),
    decreases k - j,
{
    if j < k {
        lemma_digits_grow(t, i, j, k - 1);
        assert(digits_value(t, i, k - 1) * 10 >= digits_value(t, i, k - 1)) by (nonlinear_arith);
    }
}

/// Where the parts of a canonical spelling stand in it.
pub proof fn lemma_canonical_shape(secs: u64, nanos: u32)
    ensures
        ({
            let t = span_text(secs, nanos);
            let a = decimal(secs as nat).len() as int;
            let b = a + 2 + decimal(nanos as nat).len();
            &&& 1 <= a
            &&& a + 3 <= b
            &&& t.len() == b + 2
            &&& forall|i: int| 0 <= i < a ==> is_digit(#[trigger] t[i])
            &&& t[a] == 's'
            &&& t[a + 1] == ' '
            &&& forall|i: int| a + 2 <= i < b ==> is_digit(#[trigger] t[i])
            &&& t[b] == 'n'
            &&& t[b + 1] == 's'
            &&& digits_value(t, 0, a) == secs
            &&& digits_value(t, a + 2, b) == nanos
        }),
{
    let t = span_text(secs, nanos);
    let x = decimal(secs as nat);
    let y = decimal(nanos as nat);
    let a = x.len() as int;
    let b = a + 2 + y.len();
    lemma_decimal_digits(secs as nat);
    lemma_decimal_digits(nanos as nat);
    assert forall|i: int| 0 <= i < a implies is_digit(#[trigger] t[i]) by {
        assert(t[i] == x[i]);
    }
    assert forall|i: int| a + 2 <= i < b implies is_digit(#[trigger] t[i]) by {
        assert(t[i] == y[i - a - 2]);
    }
    lemma_digits_frame(t, 0, x, 0, a);
    lemma_digits_frame(t, a + 2, y, 0, y.len() as int);
}

/// The canonical spelling of a valid span reads as that span.
pub proof fn lemma_canonical_reads_back(d: Duration)
    requires
        d.nanos < NANOS_PER_SEC,
    ensures
        duration_of_text(span_text(d.secs, d.nanos)) == Ok::<Duration, Fault>(d),
{
    let t = span_text(d.secs, d.nanos);
    let a = decimal(d.secs as nat).len() as int;
    let b = a + 2 + decimal(d.nanos as nat).len();
    lemma_canonical_shape(d.secs, d.nanos);
    assert(is_digit(t[0]));
    lemma_run(t, 0, 0, Kind::Space);
    lemma_run(t, 0, a, Kind::Digit);
    lemma_run(t, a, a + 1, Kind::Letter);
    lemma_run(t, a + 1, a + 2, Kind::Space);
    assert(is_digit(t[a + 2]));
    lemma_run(t, a + 2, b, Kind::Digit);
    lemma_run(t, b, b + 2, Kind::Letter);
    lemma_run(t, b + 2, b + 2, Kind::Space);
    let first_unit = t.subrange(a, a + 1);
    let second_unit = t.subrange(b, b + 2);
    assert(first_unit.len() == 1 && first_unit[0] == 's');
    assert(second_unit.len() == 2 && second_unit[0] == 'n' && second_unit[1] == 's');
    let last = sum_from(t, b + 2);
    assert(last == Some(Sum { secs: 0, nanos: 0 }));
    let second = sum_from(t, a + 1);
    assert(second == Some(Sum { secs: 0, nanos: d.nanos as nat })) by {
        assert(unit_worth(second_unit) == Some(Sum { secs: 0, nanos: 1 }));
        assert(digits_value(t, a + 2, b) * 1 == d.nanos);
        assert(digits_value(t, a + 2, b) * 0 == 0);
    }
    assert(sum_from(t, 0) == Some(Sum { secs: d.secs as nat, nanos: d.nanos as nat })) by {
        assert(unit_worth(first_unit) == Some(Sum { secs: 1, nanos: 0 }));
        assert(digits_value(t, 0, a) * 1 == d.secs);
        assert(digits_value(t, 0, a) * 0 == 0);
    }
}

/// `humantime::parse_duration`, its span taken apart by `as_secs` and
/// `subsec_nanos`, its error dropped. The parser's documentation says that
/// a duration is a concatenation of spans, each a number and a unit, and
/// gives the six units their usual worth; the contract says so: the result
/// is the span that the pairs add up to. The parser keeps the seconds and
/// the nanoseconds in 64 bits each: it reports an error where a number, a
/// pair or the nanoseconds with a second pending overflow them, and it
/// panics where the seconds overflow on the carry of a full second. So it
/// is called only on a text that is made of pairs and whose sum is within
/// the parser's range, which stays clear of both.
#[verifier::external_body]
fn humantime_parse(text: &str) -> (r: Option<(u64, u32)>)
    requires
        sum_of(text@) matches Some(sum) && in_parser_range(sum),
    ensures
        r == Some((span_of(sum_of(text@)->Some_0).secs, span_of(sum_of(text@)->Some_0).nanos)),
{
    humantime::parse_duration(text).ok().map(|d| (d.as_secs(), d.subsec_nanos()))
}

/// Where the run of characters of one kind that starts at `start` ends.
fn run_end(text: &str, start: usize, len: usize, kind: Kind) -> (end: usize)
    requires
        text.is_ascii(),
        len == text@.len(),
        start <= len,
    ensures
        end == start + run_len(text@, start as int, kind),
        start <= end <= len,
        forall|k: int| start <= k < end ==> is_kind(#[trigger] text@[k], kind),
{
    let mut i: usize = start;
    while i < len
        invariant
            text.is_ascii(),
            len == text@.len(),
            start <= i <= len,
            run_len(text@, start as int, kind) == (i - start) + run_len(text@, i as int, kind),
            forall|k: int| start <= k < i ==> is_kind(#[trigger] text@[k], kind),
        decreases len - i,
    {
        let b = text.get_ascii(i);
        proof {
            is_ascii_chars_nat_bound(text@);
            assert((text@.index(i as int) as nat) < 128);
        }
        let of_kind = match kind {
            Kind::Space => b == 32,
            Kind::Digit => 48 <= b && b <= 57,
            Kind::Letter => (97 <= b && b <= 122) || (65 <= b && b <= 90),
        };
        assert(of_kind == is_kind(text@[i as int], kind));
        if !of_kind {
            return i;
        }
        i += 1;
    }
    i
}

/// The most nanoseconds of a sum in range, and one more: as many as there
/// are in the seconds that 64 bits count.
pub const NANOS_END: u128 = 18_446_744_073_709_551_616_000_000_000;

/// The number that the digits from `from` up to `to` write, unless it is
/// `NANOS_END` or more.
fn read_number(text: &str, from: usize, to: usize) -> (r: Option<u128>)
    requires
        text.is_ascii(),
        from <= to <= text@.len(),
        forall|k: int| from <= k < to ==> is_digit(#[trigger] text@[k]),
    ensures
        match r {
            Some(v) => v == digits_value(text@, from as int, to as int) && v < NANOS_END,
            None => digits_value(text@, from as int, to as int) >= NANOS_END,
        },
{
    let mut value: Option<u128> = Some(0);
    let mut i: usize = from;
    while i < to
        invariant
            text.is_ascii(),
            from <= i <= to <= text@.len(),
            forall|k: int| from <= k < to ==> is_digit(#[trigger] text@[k]),
            match value {
                Some(v) => v == digits_value(text@, from as int, i as int) && v < NANOS_END,
                None => digits_value(text@, from as int, i as int) >= NANOS_END,
            },
        decreases to - i,
    {
        let b = text.get_ascii(i);
        proof {
            is_ascii_chars_nat_bound(text@);
            assert((text@.index(i as int) as nat) < 128);
            assert(is_digit(text@[i as int]));
            lemma_digits_grow(text@, from as int, i as int, i + 1);
        }
        let digit: u128 = (b - 48) as u128;
        assert(digit == digit_value(text@[i as int]));
        value =
        match value {
            Some(v) => if v * 10 + digit < NANOS_END {
                Some(v * 10 + digit)
            } else {
                None
            },
            None => None,
        };
        i += 1;
    }
    value
}

/// What one of the unit that stands from `from` up to `to` is worth: its
/// seconds and its nanoseconds.
fn read_unit(text: &str, from: usize, to: usize) -> (r: Option<(u64, u64)>)
    requires
        text.is_ascii(),
        from <= to <= text@.len(),
    ensures
        match r {
            Some((secs, nanos)) => unit_worth(text@.subrange(from as int, to as int)) == Some(
                Sum { secs: secs as nat, nanos: nanos as nat },
            ),
            None => unit_worth(text@.subrange(from as int, to as int)) is None,
        },
{
    let ghost unit = text@.subrange(from as int, to as int);
    proof {
        is_ascii_chars_nat_bound(text@);
    }
    if to - from == 1 {
        let b = text.get_ascii(from);
        assert((text@.index(from as int) as nat) < 128);
        assert(unit[0] == text@[from as int]);
        if b == 104 {
            Some((3600, 0))
        } else if b == 109 {
            Some((60, 0))
        } else if b == 115 {
            Some((1, 0))
        } else {
            None
        }
    } else if to - from == 2 {
        let b = text.get_ascii(from);
        let c = text.get_ascii(from + 1);
        assert((text@.index(from as int) as nat) < 128);
        assert((text@.index(from + 1) as nat) < 128);
        assert(unit[0] == text@[from as int]);
        assert(unit[1] == text@[from + 1]);
        if c != 115 {
            None
        } else if b == 109 {
            Some((0, 1_000_000))
        } else if b == 117 {
            Some((0, 1_000))
        } else if b == 110 {
            Some((0, 1))
        } else {
            None
        }
    } else {
        None
    }
}

/// Adds `n` times `worth` to `done`, unless that comes to `end` or more.
fn add_span(done: u128, n: u128, worth: u64, end: u128) -> (r: Option<u128>)
    requires
        n < NANOS_END,
        worth <= 1_000_000,
        done < end <= NANOS_END,
    ensures
        match r {
            Some(v) => v == done + n * worth && v < end,
            None => done + n * worth >= end,
        },
{
    assert(n * worth <= 18_446_744_073_709_551_616_000_000_000 * 1_000_000) by (nonlinear_arith)
        requires
            n <= 18_446_744_073_709_551_616_000_000_000,
            worth <= 1_000_000,
    ;
    let total: u128 = done + n * (worth as u128);
    if total < end {
        Some(total)
    } else {
        None
    }
}

/// Scans a text for the pairs of the grammar and adds them up: the seconds
/// and the nanoseconds of the sum, where the text is made of pairs and the
/// sum is in range.
pub fn scan_spans(text: &str) -> (r: Option<(u64, u128)>)
    ensures
        match r {
            Some((secs, nanos)) => sum_of(text@) == Some(
                Sum { secs: secs as nat, nanos: nanos as nat },
            ) && in_range(sum_of(text@)->Some_0),
            None => !(sum_of(text@) matches Some(sum) && in_range(sum)),
        },
{
    if !text.is_ascii() {
        proof {
            if sum_from(text@, 0) is Some {
                lemma_sum_ascii(text@, 0);
            }
        }
        return None;
    }
    proof {
        is_ascii_chars_encode_utf8(text@);
    }
    let len = text.as_bytes().len();
    if run_end(text, 0, len, Kind::Space) >= len {
        return None;
    }
    let mut secs: u128 = 0;
    let mut nanos: u128 = 0;
    let mut i: usize = 0;
    loop
        invariant
            text.is_ascii(),
            len == text@.len(),
            i <= len,
            secs <= u64::MAX,
            nanos < NANOS_END,
            sum_of(text@) == sum_from(text@, 0),
            sum_from(text@, 0) == add_sum(
                Sum { secs: secs as nat, nanos: nanos as nat },
                sum_from(text@, i as int),
            ),
        ensures
            sum_from(text@, i as int) == Some(Sum { secs: 0, nanos: 0 }),
        decreases len - i,
    {
        let number = run_end(text, i, len, Kind::Space);
        if number >= len {
            break ;
        }
        let unit = run_end(text, number, len, Kind::Digit);
        if unit == number {
            return None;
        }
        let rest = run_end(text, unit, len, Kind::Letter);
        let worth = match read_unit(text, unit, rest) {
            Some(worth) => worth,
            None => {
                return None;
            },
        };
        let ghost n = digits_value(text@, number as int, unit as int);
        let ghost more = sum_from(text@, rest as int);
        proof {
            if more is Some {
                assert(sum_from(text@, i as int) == Some(
                    Sum {
                        secs: (n * worth.0 + more->Some_0.secs) as nat,
                        nanos: (n * worth.1 + more->Some_0.nanos) as nat,
                    },
                ));
            } else {
                assert(sum_from(text@, i as int) is None);
            }
            assert(n * worth.0 >= 0 && n * worth.1 >= 0) by (nonlinear_arith)
                requires
                    n >= 0,
                    worth.0 >= 0,
                    worth.1 >= 0,
            ;
            if worth.0 > 0 {
                assert(n * worth.0 >= n) by (nonlinear_arith)
                    requires
                        n >= 0,
                        worth.0 >= 1,
                ;
            } else {
                assert(n * worth.1 >= n) by (nonlinear_arith)
                    requires
                        n >= 0,
                        worth.1 >= 1,
                ;
            }
        }
        let n = match read_number(text, number, unit) {
            Some(n) => n,
            None => {
                return None;
            },
        };
        secs =
        match add_span(secs, n, worth.0, 0x1_0000_0000_0000_0000) {
            Some(v) => v,
            None => {
                return None;
            },
        };
        nanos =
        match add_span(nanos, n, worth.1, NANOS_END) {
            Some(v) => v,
            None => {
                return None;
            },
        };
        i = rest;
    }
    if secs + nanos / (NANOS_PER_SEC as u128) > u64::MAX as u128 {
        return None;
    }
    Some((secs as u64, nanos))
}

/// Takes the duration parser's outcome for a text as a result: the span it
/// found, or the text as no duration.
pub fn duration_from_parsed(text: &str, parsed: Option<(u64, u32)>) -> (r: Result<
    Duration,
    ConfigError,
>)
    ensures
        match r {
            Ok(d) => span_of_parsed(text@, parsed) == Ok::<Duration, Fault>(d),
            Err(e) => span_of_parsed(text@, parsed) == Err::<Duration, Fault>(e@),
        },
{
    match parsed {
        Some((secs, nanos)) => if nanos < NANOS_PER_SEC {
            Ok(Duration { secs, nanos })
        } else {
            Err(ConfigError::InvalidDuration(String::from_str(text)))
        },
        None => Err(ConfigError::InvalidDuration(String::from_str(text))),
    }
}

/// Reads a text as a duration. The text is scanned for the pairs of the
/// grammar first. Where it is made of them and their sum is in range, the
/// duration parser is asked for the span; only where the sum is beyond
/// what that parser works in, the span is taken from the sum as scanned.
pub fn parse_duration(text: &str) -> (r: Result<Duration, ConfigError>)
    ensures
        match r {
            Ok(d) => duration_of_text(text@) == Ok::<Duration, Fault>(d),
            Err(e) => duration_of_text(text@) == Err::<Duration, Fault>(e@),
        },
{
    match scan_spans(text) {
        Some((secs, nanos)) => {
            if nanos <= (u64::MAX - NANOS_PER_SEC as u64) as u128 {
                duration_from_parsed(text, humantime_parse(text))
            } else {
                let carried: u64 = (nanos / (NANOS_PER_SEC as u128)) as u64;
                Ok(Duration { secs: secs + carried, nanos: (nanos % (NANOS_PER_SEC as u128)) as u32 })
            }
        },
        None => Err(ConfigError::InvalidDuration(String::from_str(text))),
    }
}

impl Duration {
    /// One second, the span of a duration field that the document leaves out.
    pub open spec fn one_second() -> Duration {
        Duration { secs: 1, nanos: 0 }
    }

    /// Writes the span in its canonical spelling.
    pub fn to_text(&self) -> (s: String)
        ensures
            s@ == span_text(self.secs, self.nanos),
    {
        proof {
            reveal_strlit("s ");
            reveal_strlit("ns");
        }
        let mut s = decimal_text(self.secs);
        s.append("s ");
        let nanos = decimal_text(self.nanos as u64);
        s.append(nanos.as_str());
        s.append("ns");
        assert(s@ =~= span_text(self.secs, self.nanos));
        s
    }
}

impl Default for Duration {
    /// One second.
    fn default() -> (r: Duration)
        ensures
            r == Duration::one_second(),
    {
        Duration { secs: 1, nanos: 0 }
    }
}

impl Codec for Duration {
    type Model = Duration;

    open spec fn model(&self) -> Duration {
        *self
    }

    open spec fn valid(m: Duration) -> bool {
        m.nanos < NANOS_PER_SEC
    }

    open spec fn default_model() -> Duration {
        Duration::one_second()
    }

    /// A scalar is read by its text, and an explicit null, which is what an
    /// empty value reads as, by the empty text: that is no duration. The
    /// default is for a key that is missing, not for one that is null.
    open spec fn decode(tree: Tree) -> Result<Duration, Fault> {
        match tree {
            Tree::Null => duration_of_text(Seq::empty()),
            _ => match scalar_text(tree) {
                Some(t) => duration_of_text(t),
                None => Err(Fault::TypeMismatch(Expected::Text)),
            },
        }
    }

    open spec fn encode(m: Duration) -> Tree {
        Tree::Text(span_text(m.secs, m.nanos))
    }

    proof fn lemma_default_valid() {
    }

    proof fn lemma_decode_valid(tree: Tree) {
    }

    proof fn lemma_round_trip(m: Duration) {
        lemma_canonical_reads_back(m);
    }

    proof fn lemma_encode_orderly(m: Duration) {
    }

    fn default_value() -> (r: Duration) {
        Duration::default()
    }

    fn from_node(node: &Node) -> (r: Result<Duration, ConfigError>) {
        match node {
            Node::Null => {
                proof {
                    reveal_strlit("");
                    assert(""@ =~= Seq::<char>::empty());
                }
                parse_duration("")
            },
            _ => match text_of_scalar(node) {
                Some(t) => parse_duration(t.as_str()),
                None => Err(ConfigError::TypeMismatch(Expected::Text)),
            },
        }
    }

    fn to_node(&self) -> (node: Node) {
        Node::Text(self.to_text())
    }
}

} // verus!
