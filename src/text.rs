//! Byte-level scanning of command output: digit runs, label containment and
//! decimal integers.
use vstd::prelude::*;

verus! {

pub open spec fn is_digit(b: u8) -> bool {
    48 <= b && b <= 57
}

/// Value of a sequence of ASCII digits, most significant first.
pub open spec fn digits_value(s: Seq<u8>) -> nat
    decreases s.len(),
{
    if s.len() == 0 {
        0
    } else {
        digits_value(s.drop_last()) * 10 + (s.last() - 48) as nat
    }
}

/// `pat` occurs in `s` starting at index `i`.
pub open spec fn occurs_at(s: Seq<u8>, pat: Seq<u8>, i: int) -> bool {
    0 <= i && i + pat.len() <= s.len() && s.subrange(i, i + pat.len()) == pat
}

pub open spec fn contains(s: Seq<u8>, pat: Seq<u8>) -> bool {
    exists|i: int| occurs_at(s, pat, i)
}

/// The span of the first maximal run of ASCII digits in `s`, if any.
pub open spec fn is_first_digit_span(s: Seq<u8>, start: int, end: int) -> bool {
    &&& 0 <= start < end <= s.len()
    &&& forall|i: int| 0 <= i < start ==> !is_digit(#[trigger] s[i])
    &&& forall|i: int| start <= i < end ==> is_digit(#[trigger] s[i])
    &&& (end == s.len() || !is_digit(s[end]))
}

pub open spec fn has_digit(s: Seq<u8>) -> bool {
    exists|i: int| 0 <= i < s.len() && is_digit(#[trigger] s[i])
}

/// Relies on regex::bytes::Regex::find with the pattern `[0-9]+`: the
/// leftmost-first match of a run of ASCII digits, which being greedy is the
/// whole first run. Offsets are relative to `hay[start..end]`.
#[verifier::external_body]
fn find_digit_run(hay: &[u8], start: usize, end: usize) -> (r: Option<(usize, usize)>)
    requires
        start <= end <= hay@.len(),
    ensures
        r.is_none() <==> !has_digit(hay@.subrange(start as int, end as int)),
        r matches Some((a, b)) ==> is_first_digit_span(
            hay@.subrange(start as int, end as int),
            a as int,
            b as int,
        ),
{
    let re = regex::bytes::Regex::new("[0-9]+").unwrap();
    re.find(&hay[start..end]).map(|m| (m.start(), m.end()))
}

/// Value of the digits `hay[start..end]`, or `None` where it exceeds `u64`.
pub fn parse_digits(hay: &[u8], start: usize, end: usize) -> (r: Option<u64>)
    requires
        start <= end <= hay@.len(),
        forall|i: int| start <= i < end ==> is_digit(#[trigger] hay@[i]),
    ensures
        r.is_some() <==> digits_value(hay@.subrange(start as int, end as int)) <= u64::MAX,
        r matches Some(v) ==> v == digits_value(hay@.subrange(start as int, end as int)),
{
    let mut acc: u64 = 0;
    let mut i: usize = start;
    while i < end
        invariant
            start <= i <= end <= hay@.len(),
            forall|k: int| start <= k < end ==> is_digit(#[trigger] hay@[k]),
            acc == digits_value(hay@.subrange(start as int, i as int)),
        decreases end - i,
    {
        let d = hay[i];
        assert(is_digit(hay@[i as int]));
        assert(hay@.subrange(start as int, i + 1).drop_last() =~= hay@.subrange(
            start as int,
            i as int,
        ));
        if acc > (u64::MAX - (d - 48) as u64) / 10 {
            proof {
                lemma_digits_value_grows(hay@.subrange(start as int, end as int), (i - start) as int + 1);
                assert(hay@.subrange(start as int, end as int).subrange(0, (i - start) as int + 1)
                    =~= hay@.subrange(start as int, i + 1));
            }
            return None;
        }
        acc = acc * 10 + (d - 48) as u64;
        i = i + 1;
    }
    assert(hay@.subrange(start as int, i as int) =~= hay@.subrange(start as int, end as int));
    Some(acc)
}

/// A longer run of digits never has a smaller value than its prefix.
pub proof fn lemma_digits_value_grows(s: Seq<u8>, n: int)
    requires
        0 <= n <= s.len(),
        forall|i: int| 0 <= i < s.len() ==> is_digit(#[trigger] s[i]),
    ensures
        digits_value(s.subrange(0, n)) <= digits_value(s),
    decreases s.len(),
{
    if n < s.len() {
        assert(s.drop_last() =~= s.subrange(0, s.len() - 1));
        lemma_digits_value_grows(s.drop_last(), n);
        assert(s.drop_last().subrange(0, n) =~= s.subrange(0, n));
    } else {
        assert(s.subrange(0, n) =~= s);
    }
}

/// The value of the first run of digits in `line`, where there is one and it
/// fits in `u64`.
pub open spec fn integer_in(line: Seq<u8>) -> Option<u64> {
    if exists|a: int, b: int| is_first_digit_span(line, a, b) {
        let (a, b) = choose|a: int, b: int| is_first_digit_span(line, a, b);
        let v = digits_value(line.subrange(a, b));
        if v <= u64::MAX {
            Some(v as u64)
        } else {
            None
        }
    } else {
        None
    }
}

/// The first integer in `hay[start..end]`: `None` where the span holds no
/// digit or its first run of digits does not fit in `u64`.
pub fn first_integer(hay: &[u8], start: usize, end: usize) -> (r: Option<u64>)
    requires
        start <= end <= hay@.len(),
    ensures
        r == integer_in(hay@.subrange(start as int, end as int)),
{
    let ghost line = hay@.subrange(start as int, end as int);
    match find_digit_run(hay, start, end) {
        None => {
            assert forall|a: int, b: int| !is_first_digit_span(line, a, b) by {
                if is_first_digit_span(line, a, b) {
                    assert(is_digit(line[a]));
                }
            }
            None
        },
        Some((a, b)) => {
            proof {
                lemma_first_digit_span_unique(line, a as int, b as int);
                assert(line.subrange(a as int, b as int) =~= hay@.subrange(start + a, start + b));
            }
            assert forall|k: int| start + a <= k < start + b implies is_digit(#[trigger] hay@[k]) by {
                assert(line[k - start] == hay@[k]);
            }
            parse_digits(hay, start + a, start + b)
        },
    }
}

pub proof fn lemma_first_digit_span_unique(s: Seq<u8>, a: int, b: int)
    requires
        is_first_digit_span(s, a, b),
    ensures
        forall|c: int, d: int| is_first_digit_span(s, c, d) ==> c == a && d == b,
{
    assert forall|c: int, d: int| is_first_digit_span(s, c, d) implies c == a && d == b by {
        if c < a {
            assert(is_digit(s[c]));
        }
        if a < c {
            assert(is_digit(s[a]));
        }
        if d < b {
            assert(is_digit(s[d]));
        }
        if b < d {
            assert(is_digit(s[b]));
        }
    }
}

/// Whether `pat` occurs in `hay[start..end]`.
pub fn contains_bytes(hay: &[u8], start: usize, end: usize, pat: &[u8]) -> (r: bool)
    requires
        start <= end <= hay@.len(),
    ensures
        r == contains(hay@.subrange(start as int, end as int), pat@),
{
    let ghost line = hay@.subrange(start as int, end as int);
    if pat.len() > end - start {
        assert forall|i: int| !occurs_at(line, pat@, i) by {}
        return false;
    }
    let last: usize = end - pat.len();
    let mut i: usize = start;
    while i <= last
        invariant
            start <= i <= last + 1,
            last + pat@.len() == end,
            end <= hay@.len(),
            line == hay@.subrange(start as int, end as int),
            forall|k: int| 0 <= k < i - start ==> !occurs_at(line, pat@, k),
        decreases last + 1 - i,
    {
        let mut j: usize = 0;
        let mut same = true;
        while j < pat.len()
            invariant
                start <= i <= last,
                last + pat@.len() == end,
                end <= hay@.len(),
                0 <= j <= pat@.len(),
                same == forall|m: int| 0 <= m < j ==> hay@[i + m] == pat@[m],
            decreases pat@.len() - j,
        {
            if hay[i + j] != pat[j] {
                same = false;
            }
            j = j + 1;
        }
        if same {
            assert(line.subrange(i - start, i - start + pat@.len()) =~= pat@);
            assert(occurs_at(line, pat@, i - start));
            return true;
        }
        assert(!occurs_at(line, pat@, i - start)) by {
            let m = choose|m: int| 0 <= m < pat@.len() && hay@[i + m] != pat@[m];
            if occurs_at(line, pat@, i - start) {
                assert(line.subrange(i - start, i - start + pat@.len())[m] == pat@[m]);
            }
        }
        i = i + 1;
    }
    false
}

} // verus!
