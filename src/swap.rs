//! Physical memory size and swap usage: integers and decimal numbers found
//! anywhere in a command's output.
use vstd::prelude::*;
use vstd::arithmetic::div_mod::{lemma_div_denominator, lemma_hoist_over_denominator};
use vstd::string::*;
use crate::error::FreeError;
use crate::text::{digits_value, first_integer, integer_in, is_digit, parse_digits};

verus! {

pub open spec fn is_sign(b: u8) -> bool {
    b == 43 || b == 45
}

/// Length of the run of digits that starts at `p`.
pub open spec fn digit_run(s: Seq<u8>, p: int) -> nat
    decreases s.len() - p,
{
    if 0 <= p < s.len() && is_digit(s[p]) {
        1 + digit_run(s, p + 1)
    } else {
        0
    }
}

/// Where the digits after an optional sign at `p` begin.
pub open spec fn after_sign(s: Seq<u8>, p: int) -> int {
    if 0 <= p < s.len() && is_sign(s[p]) {
        p + 1
    } else {
        p
    }
}

/// Index of the decimal point of a number of the form `[-+]?[0-9]*\.[0-9]+`
/// at `p`, or -1 where none starts there.
pub open spec fn point_at(s: Seq<u8>, p: int) -> int {
    let dot = after_sign(s, p) + digit_run(s, after_sign(s, p));
    if dot < s.len() && s[dot] == 46 && digit_run(s, dot + 1) > 0 {
        dot
    } else {
        -1
    }
}

/// End of the number that starts at `p`, or -1: the pattern
/// `[-+]?[0-9]*\.[0-9]+|[0-9]+`, its first alternative preferred.
pub open spec fn number_end(s: Seq<u8>, p: int) -> int {
    if point_at(s, p) >= 0 {
        point_at(s, p) + 1 + digit_run(s, point_at(s, p) + 1)
    } else if digit_run(s, p) > 0 {
        p + digit_run(s, p)
    } else {
        -1
    }
}

/// The successive leftmost non-overlapping numbers from `p` on.
pub open spec fn number_spans(s: Seq<u8>, p: int) -> Seq<(int, int)>
    decreases s.len() - p via number_spans_decreases
{
    if p < 0 || p >= s.len() {
        seq![]
    } else if number_end(s, p) > p {
        seq![(p, number_end(s, p))] + number_spans(s, number_end(s, p))
    } else {
        number_spans(s, p + 1)
    }
}

pub proof fn lemma_digit_run(s: Seq<u8>, p: int)
    ensures
        0 <= p <= s.len() ==> p + digit_run(s, p) <= s.len(),
        forall|k: int| p <= k < p + digit_run(s, p) ==> is_digit(#[trigger] s[k]),
        0 <= p + digit_run(s, p) < s.len() && p >= 0 ==> !is_digit(s[p + digit_run(s, p)]),
    decreases s.len() - p,
{
    if 0 <= p < s.len() && is_digit(s[p]) {
        lemma_digit_run(s, p + 1);
    }
}

/// A number's span lies within the text.
pub proof fn lemma_number_end(s: Seq<u8>, p: int)
    requires
        0 <= p < s.len(),
        number_end(s, p) > p,
    ensures
        number_end(s, p) <= s.len(),
{
    lemma_digit_run(s, p);
    let q = after_sign(s, p);
    lemma_digit_run(s, q);
    if point_at(s, p) >= 0 {
        lemma_digit_run(s, point_at(s, p) + 1);
    }
}

#[via_fn]
proof fn number_spans_decreases(s: Seq<u8>, p: int) {
    if 0 <= p < s.len() && number_end(s, p) > p {
        lemma_number_end(s, p);
    }
}

/// Relies on regex::bytes::Regex::find_iter with the pattern
/// `[-+]?[0-9]*\.[0-9]+|[0-9]+`: the successive non-overlapping leftmost-first
/// matches, as byte offsets.
#[verifier::external_body]
fn find_numbers(hay: &[u8]) -> (r: Vec<(usize, usize)>)
    ensures
        r@.map_values(|m: (usize, usize)| (m.0 as int, m.1 as int)) == number_spans(hay@, 0),
{
    let re = regex::bytes::Regex::new(r"[-+]?[0-9]*\.[0-9]+|[0-9]+").unwrap();
    re.find_iter(hay).map(|m| (m.start(), m.end())).collect()
}

pub open spec fn pow10(n: nat) -> nat
    decreases n,
{
    if n == 0 {
        1
    } else {
        10 * pow10((n - 1) as nat)
    }
}

/// A fraction's digits scaled by 1024, truncated.
pub open spec fn fraction_kib(f: Seq<u8>) -> int {
    (1024 * digits_value(f)) as int / pow10(f.len()) as int
}

/// The same value, digit by digit from the last.
pub open spec fn fraction_kib_from_right(f: Seq<u8>) -> int
    decreases f.len(),
{
    if f.len() == 0 {
        0
    } else {
        ((f[0] - 48) * 1024 + fraction_kib_from_right(f.drop_first())) / 10
    }
}

/// Kibibytes for the number of mebibytes at `s[p..number_end(s, p)]`: the
/// value times 1024, truncated; a negative number counts as zero.
pub open spec fn number_kib(s: Seq<u8>, p: int) -> int {
    let q = after_sign(s, p);
    let whole = digits_value(s.subrange(q, q + digit_run(s, q)));
    let dot = point_at(s, p);
    let frac = if dot >= 0 {
        fraction_kib(s.subrange(dot + 1, dot + 1 + digit_run(s, dot + 1)))
    } else {
        0
    };
    if s[p] == 45 {
        0
    } else {
        whole * 1024 + frac
    }
}

pub proof fn lemma_pow10_positive(n: nat)
    ensures
        pow10(n) > 0,
    decreases n,
{
    if n > 0 {
        lemma_pow10_positive((n - 1) as nat);
    }
}

/// The value of digits, read from the most significant one.
pub proof fn lemma_digits_value_head(f: Seq<u8>)
    requires
        f.len() > 0,
        forall|i: int| 0 <= i < f.len() ==> is_digit(#[trigger] f[i]),
    ensures
        digits_value(f) == (f[0] - 48) * pow10((f.len() - 1) as nat) + digits_value(f.drop_first()),
    decreases f.len(),
{
    if f.len() > 1 {
        let g = f.drop_last();
        lemma_digits_value_head(g);
        assert(g.drop_first() =~= f.drop_first().drop_last());
        let p = pow10((f.len() - 2) as nat);
        let x = digits_value(g.drop_first());
        let d = (f[0] - 48) as int;
        let l = (f.last() - 48) as int;
        assert(is_digit(f[f.len() - 1]));
        assert(g[0] == f[0]);
        assert(f.drop_first().last() == f.last());
        assert(digits_value(f) == digits_value(g) * 10 + l);
        assert(digits_value(f.drop_first()) == digits_value(f.drop_first().drop_last()) * 10 + l);
        assert(pow10((f.len() - 1) as nat) == 10 * p);
        assert((d * p + x) * 10 == d * (10 * p) + x * 10) by (nonlinear_arith);
        assert(digits_value(g) == d * p + x);
        assert(digits_value(f) == d * pow10((f.len() - 1) as nat) + digits_value(f.drop_first()));
        assert(digits_value(f) == (f[0] - 48) * pow10((f.len() - 1) as nat) + digits_value(f.drop_first()));
    } else {
        assert(f.drop_first().len() == 0);
        assert(f.drop_last().len() == 0);
        assert(f.last() == f[0]);
        assert(is_digit(f[0]));
        assert(digits_value(f.drop_last()) == 0);
        assert(digits_value(f) == (f[0] - 48));
        assert(pow10(0) == 1);
        assert(digits_value(f.drop_first()) == 0);
        assert(digits_value(f) == (f[0] - 48) * pow10((f.len() - 1) as nat) + digits_value(f.drop_first()));
    }
}

pub proof fn lemma_fraction_kib(f: Seq<u8>)
    requires
        forall|i: int| 0 <= i < f.len() ==> is_digit(#[trigger] f[i]),
    ensures
        fraction_kib(f) == fraction_kib_from_right(f),
        0 <= fraction_kib(f) < 1024,
    decreases f.len(),
{
    if f.len() > 0 {
        let r = f.drop_first();
        lemma_fraction_kib(r);
        lemma_digits_value_head(f);
        let p = pow10((f.len() - 1) as nat);
        lemma_pow10_positive((f.len() - 1) as nat);
        let d = (f[0] - 48) as int;
        let x: int = 1024 * digits_value(r) as int;
        assert(1024 * digits_value(f) == x + (1024 * d) * p) by (nonlinear_arith)
            requires
                digits_value(f) == d * p + digits_value(r),
                x == 1024 * digits_value(r) as int,
        ;
        lemma_hoist_over_denominator(x, 1024 * d, p as nat);
        lemma_div_denominator(x + (1024 * d) * p, p as int, 10);
        assert(p * 10 == pow10(f.len()));
    }
}

/// Kibibytes for the fraction digits `hay[from..to]`.
fn fraction_digits_kib(hay: &[u8], from: usize, to: usize) -> (r: u64)
    requires
        from <= to <= hay@.len(),
        forall|k: int| from <= k < to ==> is_digit(#[trigger] hay@[k]),
    ensures
        r == fraction_kib(hay@.subrange(from as int, to as int)),
        r < 1024,
{
    let mut t: u64 = 0;
    let mut j: usize = to;
    proof {
        lemma_fraction_kib(hay@.subrange(from as int, to as int));
    }
    while j > from
        invariant
            from <= j <= to <= hay@.len(),
            forall|k: int| from <= k < to ==> is_digit(#[trigger] hay@[k]),
            t == fraction_kib_from_right(hay@.subrange(j as int, to as int)),
            t < 1024,
        decreases j,
    {
        let d = hay[j - 1];
        assert(is_digit(hay@[j - 1]));
        assert(hay@.subrange(j - 1, to as int).drop_first() =~= hay@.subrange(j as int, to as int));
        t = ((d - 48) as u64 * 1024 + t) / 10;
        j = j - 1;
    }
    t
}

/// Kibibytes for the number that the pattern matched at `hay[a..b]`, or an
/// error where they exceed `u64`.
fn number_kib_of(hay: &[u8], a: usize, b: usize) -> (r: Result<u64, FreeError>)
    requires
        a < b <= hay@.len(),
        number_end(hay@, a as int) == b,
    ensures
        number_kib(hay@, a as int) <= u64::MAX ==> r == Ok::<u64, FreeError>(
            number_kib(hay@, a as int) as u64,
        ),
        number_kib(hay@, a as int) > u64::MAX ==> r == Err::<u64, FreeError>(
            FreeError::ArithmeticConsistencyError,
        ),
{
    let ghost s = hay@;
    proof {
        lemma_digit_run(s, a as int);
        lemma_digit_run(s, after_sign(s, a as int));
        if point_at(s, a as int) >= 0 {
            lemma_digit_run(s, point_at(s, a as int) + 1);
            lemma_fraction_kib(s.subrange(point_at(s, a as int) + 1, b as int));
        }
    }
    if hay[a] == 45 {
        return Ok(0);
    }
    let q: usize = if hay[a] == 43 {
        a + 1
    } else {
        a
    };
    let mut e: usize = q;
    while e < b && is_digit_byte(hay[e])
        invariant
            q <= e <= b,
            b <= hay@.len(),
            hay@ == s,
            q == after_sign(s, a as int),
            e <= q + digit_run(s, q as int),
            forall|k: int| q <= k < e ==> is_digit(#[trigger] s[k]),
        decreases b - e,
    {
        e = e + 1;
        proof {
            lemma_digit_run_prefix(s, q as int, e as int);
        }
    }
    proof {
        lemma_digit_run_prefix(s, q as int, e as int);
    }
    assert(e == q + digit_run(s, q as int));
    let frac: u64 = if e < b {
        fraction_digits_kib(hay, e + 1, b)
    } else {
        0
    };
    let whole = match parse_digits(hay, q, e) {
        None => {
            proof {
                assert(digits_value(s.subrange(q as int, e as int)) * 1024 > u64::MAX);
            }
            return Err(FreeError::ArithmeticConsistencyError);
        },
        Some(w) => w,
    };
    if whole > (u64::MAX - frac) / 1024 {
        return Err(FreeError::ArithmeticConsistencyError);
    }
    Ok(whole * 1024 + frac)
}

fn is_digit_byte(b: u8) -> (r: bool)
    ensures
        r == is_digit(b),
{
    48 <= b && b <= 57
}

/// Every byte between `p` and a point `e` that is all digits lies in the run.
pub proof fn lemma_digit_run_prefix(s: Seq<u8>, p: int, e: int)
    requires
        0 <= p <= e <= s.len(),
        forall|k: int| p <= k < e ==> is_digit(#[trigger] s[k]),
    ensures
        e <= p + digit_run(s, p),
        e < s.len() && !is_digit(s[e]) ==> e == p + digit_run(s, p),
        e == s.len() ==> e == p + digit_run(s, p),
    decreases e - p,
{
    if p < e {
        lemma_digit_run_prefix(s, p + 1, e);
    }
}

pub open spec fn is_number_span(s: Seq<u8>, m: (int, int)) -> bool {
    0 <= m.0 < m.1 <= s.len() && number_end(s, m.0) == m.1
}

/// Each number found is a whole match of the pattern within the text.
pub proof fn lemma_spans_are_numbers(s: Seq<u8>, p: int)
    ensures
        forall|i: int|
            0 <= i < number_spans(s, p).len() ==> is_number_span(s, #[trigger] number_spans(s, p)[i]),
    decreases s.len() - p,
{
    if 0 <= p < s.len() {
        if number_end(s, p) > p {
            lemma_number_end(s, p);
            lemma_spans_are_numbers(s, number_end(s, p));
            let rest = number_spans(s, number_end(s, p));
            assert forall|i: int| 0 <= i < number_spans(s, p).len() implies is_number_span(
                s,
                #[trigger] number_spans(s, p)[i],
            ) by {
                assert(number_spans(s, p) == seq![(p, number_end(s, p))] + rest);
                if i > 0 {
                    assert(number_spans(s, p)[i] == rest[i - 1]);
                } else {
                    assert(number_spans(s, p)[i] == (p, number_end(s, p)));
                }
            }
        } else {
            lemma_spans_are_numbers(s, p + 1);
            assert(number_spans(s, p) == number_spans(s, p + 1));
        }
    }
}

/// Swap total, used and free in kibibytes: the first three numbers of the
/// text, as mebibytes.
pub open spec fn swap_figures(s: Seq<u8>) -> Result<(u64, u64, u64), FreeError> {
    let sp = number_spans(s, 0);
    if sp.len() < 3 {
        Err(FreeError::ParseError)
    } else {
        let k0 = number_kib(s, sp[0].0);
        let k1 = number_kib(s, sp[1].0);
        let k2 = number_kib(s, sp[2].0);
        if k0 > u64::MAX || k1 > u64::MAX || k2 > u64::MAX {
            Err(FreeError::ArithmeticConsistencyError)
        } else {
            Ok((k0 as u64, k1 as u64, k2 as u64))
        }
    }
}

/// Swap total, used and free in kibibytes from the swap usage text.
pub fn extract_swapinfo(text: &str) -> (r: Result<(u64, u64, u64), FreeError>)
    ensures
        r == swap_figures(text.spec_bytes()),
{
    let hay = text.as_bytes();
    let spans = find_numbers(hay);
    if spans.len() < 3 {
        return Err(FreeError::ParseError);
    }
    proof {
        lemma_spans_are_numbers(hay@, 0);
        let sp = number_spans(hay@, 0);
        let f = |m: (usize, usize)| (m.0 as int, m.1 as int);
        assert(spans@.map_values(f)[0] == sp[0]);
        assert(spans@.map_values(f)[1] == sp[1]);
        assert(spans@.map_values(f)[2] == sp[2]);
        assert(is_number_span(hay@, sp[0]));
        assert(is_number_span(hay@, sp[1]));
        assert(is_number_span(hay@, sp[2]));
    }
    let k0 = number_kib_of(hay, spans[0].0, spans[0].1);
    let k1 = number_kib_of(hay, spans[1].0, spans[1].1);
    let k2 = number_kib_of(hay, spans[2].0, spans[2].1);
    match (k0, k1, k2) {
        (Ok(k0), Ok(k1), Ok(k2)) => Ok((k0, k1, k2)),
        _ => Err(FreeError::ArithmeticConsistencyError),
    }
}

/// Physical memory in kibibytes: the first integer of the text, in bytes.
pub open spec fn memsize_kib(s: Seq<u8>) -> Result<u64, FreeError> {
    match integer_in(s) {
        Some(v) => Ok(v / 1024),
        None => Err(FreeError::ParseError),
    }
}

/// Physical memory in kibibytes from the memory size text.
pub fn extract_memsize(text: &str) -> (r: Result<u64, FreeError>)
    ensures
        r == memsize_kib(text.spec_bytes()),
{
    let hay = text.as_bytes();
    assert(hay@.subrange(0, hay@.len() as int) =~= hay@);
    match first_integer(hay, 0, hay.len()) {
        None => Err(FreeError::ParseError),
        Some(v) => {
            assert(v >> 10 == v / 1024) by (bit_vector);
            Ok(v >> 10)
        },
    }
}

} // verus!
