//! Page statistics: the page size on the first line, then one labelled page
//! count per line, accumulated into byte totals.
use vstd::prelude::*;
use vstd::string::*;
use crate::error::FreeError;
use crate::text::{contains, contains_bytes, first_integer, integer_in};

verus! {

pub open spec fn label_wired() -> Seq<u8> {
    "Pages wired down".spec_bytes()
}

pub open spec fn label_active() -> Seq<u8> {
    "Pages active".spec_bytes()
}

pub open spec fn label_inactive() -> Seq<u8> {
    "Pages inactive".spec_bytes()
}

pub open spec fn label_speculative() -> Seq<u8> {
    "Pages speculative".spec_bytes()
}

pub open spec fn label_compressor() -> Seq<u8> {
    "Pages occupied by compressor".spec_bytes()
}

pub open spec fn label_purgeable() -> Seq<u8> {
    "Pages purgeable".spec_bytes()
}

pub open spec fn label_file_backed() -> Seq<u8> {
    "File-backed pages".spec_bytes()
}

pub open spec fn label_free() -> Seq<u8> {
    "Pages free".spec_bytes()
}

/// Running byte totals while the lines are read.
#[derive(Debug, Clone, Copy, PartialEq, Eq, Structural)]
pub struct PageTotals {
    pub page_size: u64,
    pub used: u64,
    pub cache: u64,
    pub free: u64,
    pub avail: u64,
}

pub open spec fn if_then(c: bool, amount: int) -> int {
    if c {
        amount
    } else {
        0
    }
}

/// Whether `line` carries a label that asks for its page count.
pub open spec fn is_counted(line: Seq<u8>) -> bool {
    contains(line, label_purgeable()) || contains(line, label_file_backed()) || contains(
        line,
        label_wired(),
    ) || contains(line, label_active()) || contains(line, label_inactive()) || contains(
        line,
        label_speculative(),
    ) || contains(line, label_compressor()) || contains(line, label_free())
}

/// Bytes added to the used total by a line, for a line's byte amount.
pub open spec fn used_share(line: Seq<u8>, amount: int) -> int {
    if_then(contains(line, label_wired()), amount) + if_then(contains(line, label_active()), amount)
        + if_then(contains(line, label_inactive()), amount) + if_then(
        contains(line, label_speculative()),
        amount,
    ) + if_then(contains(line, label_compressor()), amount)
}

/// The totals after one line; the first line sets the page size.
pub open spec fn step(t: PageTotals, line: Seq<u8>, first: bool) -> Result<PageTotals, FreeError> {
    let n = integer_in(line);
    if first && n.is_none() {
        Err(FreeError::ParseError)
    } else {
        let ps: u64 = if first {
            n.unwrap()
        } else {
            t.page_size
        };
        if !is_counted(line) {
            Ok(PageTotals { page_size: ps, ..t })
        } else if n.is_none() {
            Err(FreeError::ParseError)
        } else {
            apply(t, ps, n.unwrap() * ps, line)
        }
    }
}

pub open spec fn cache_after(t: PageTotals, line: Seq<u8>, amount: int) -> int {
    t.cache + if_then(
        contains(line, label_purgeable()) || contains(line, label_file_backed()),
        amount,
    )
}

pub open spec fn free_before_speculative(t: PageTotals, line: Seq<u8>, amount: int) -> int {
    t.free + if_then(contains(line, label_free()), amount)
}

pub open spec fn avail_after(t: PageTotals, line: Seq<u8>, amount: int) -> int {
    t.avail + if_then(contains(line, label_free()), amount) + if_then(
        contains(line, label_inactive()),
        amount,
    )
}

/// The totals after adding a counted line's bytes, `amount`, under its labels.
pub open spec fn apply(t: PageTotals, ps: u64, amount: int, line: Seq<u8>) -> Result<
    PageTotals,
    FreeError,
> {
    let cache = cache_after(t, line, amount);
    let used = t.used + used_share(line, amount);
    let free_in = free_before_speculative(t, line, amount);
    let free = free_in - if_then(contains(line, label_speculative()), amount);
    let avail = avail_after(t, line, amount);
    if amount > u64::MAX || cache > u64::MAX || used > u64::MAX || free_in > u64::MAX || free < 0
        || avail > u64::MAX {
        Err(FreeError::ArithmeticConsistencyError)
    } else {
        Ok(
            PageTotals {
                page_size: ps,
                used: used as u64,
                cache: cache as u64,
                free: free as u64,
                avail: avail as u64,
            },
        )
    }
}

/// Index of the first line feed at or after `i`, or the length.
pub open spec fn line_end(s: Seq<u8>, i: int) -> int
    decreases s.len() - i,
{
    if i >= s.len() || s[i] == 10 {
        i
    } else {
        line_end(s, i + 1)
    }
}

/// The totals after the lines from `start` on, lines being split at line feeds.
pub open spec fn fold_lines(s: Seq<u8>, start: int, t: PageTotals, first: bool) -> Result<
    PageTotals,
    FreeError,
>
    decreases s.len() + 1 - start via fold_lines_decreases
{
    if start < 0 || start > s.len() {
        Ok(t)
    } else {
        let e = line_end(s, start);
        match step(t, s.subrange(start, e), first) {
            Err(x) => Err(x),
            Ok(t2) => {
                if e >= s.len() {
                    Ok(t2)
                } else {
                    fold_lines(s, e + 1, t2, false)
                }
            },
        }
    }
}

#[via_fn]
proof fn fold_lines_decreases(s: Seq<u8>, start: int, t: PageTotals, first: bool) {
    if 0 <= start <= s.len() {
        lemma_line_end_bounds(s, start);
    }
}

pub proof fn lemma_line_end_bounds(s: Seq<u8>, i: int)
    requires
        0 <= i <= s.len(),
    ensures
        i <= line_end(s, i) <= s.len(),
        line_end(s, i) < s.len() ==> s[line_end(s, i)] == 10,
        forall|k: int| i <= k < line_end(s, i) ==> s[k] != 10,
    decreases s.len() - i,
{
    if i < s.len() && s[i] != 10 {
        lemma_line_end_bounds(s, i + 1);
    }
}

pub open spec fn zero_totals() -> PageTotals {
    PageTotals { page_size: 0, used: 0, cache: 0, free: 0, avail: 0 }
}

/// Free, available, cache and used memory in kibibytes, from the byte totals:
/// the cache is taken out of the used bytes before either is scaled.
pub open spec fn page_summary(s: Seq<u8>) -> Result<(u64, u64, u64, u64), FreeError> {
    match fold_lines(s, 0, zero_totals(), true) {
        Err(e) => Err(e),
        Ok(t) => {
            if t.used < t.cache {
                Err(FreeError::ArithmeticConsistencyError)
            } else {
                Ok((t.free / 1024, t.avail / 1024, t.cache / 1024, ((t.used - t.cache) / 1024) as u64))
            }
        },
    }
}

fn find_line_end(hay: &[u8], start: usize) -> (e: usize)
    requires
        start <= hay@.len(),
    ensures
        e == line_end(hay@, start as int),
{
    proof {
        lemma_line_end_bounds(hay@, start as int);
    }
    let mut i: usize = start;
    while i < hay.len() && hay[i] != 10
        invariant
            start <= i <= hay@.len(),
            line_end(hay@, i as int) == line_end(hay@, start as int),
        decreases hay@.len() - i,
    {
        i = i + 1;
    }
    i
}

/// Whether `line` carries the label `column_name`: plain, case-sensitive
/// containment.
pub fn is_used_memory(line: &[u8], column_name: &str) -> (r: bool)
    ensures
        r == contains(line@, column_name.spec_bytes()),
{
    let r = contains_bytes(line, 0, line.len(), column_name.as_bytes());
    assert(line@.subrange(0, line@.len() as int) =~= line@);
    r
}

fn has_label(hay: &[u8], start: usize, end: usize, label: &str) -> (r: bool)
    requires
        start <= end <= hay@.len(),
    ensures
        r == contains(hay@.subrange(start as int, end as int), label.spec_bytes()),
{
    is_used_memory(vstd::slice::slice_subrange(hay, start, end), label)
}

fn is_counted_line(hay: &[u8], start: usize, end: usize) -> (r: bool)
    requires
        start <= end <= hay@.len(),
    ensures
        r == is_counted(hay@.subrange(start as int, end as int)),
{
    has_label(hay, start, end, "Pages purgeable") || has_label(hay, start, end, "File-backed pages")
        || has_label(hay, start, end, "Pages wired down") || has_label(
        hay,
        start,
        end,
        "Pages active",
    ) || has_label(hay, start, end, "Pages inactive") || has_label(
        hay,
        start,
        end,
        "Pages speculative",
    ) || has_label(hay, start, end, "Pages occupied by compressor") || has_label(
        hay,
        start,
        end,
        "Pages free",
    )
}

/// One line's effect on the totals.
fn step_line(t: PageTotals, hay: &[u8], start: usize, end: usize, first: bool) -> (r: Result<
    PageTotals,
    FreeError,
>)
    requires
        start <= end <= hay@.len(),
    ensures
        r == step(t, hay@.subrange(start as int, end as int), first),
{
    let ghost line = hay@.subrange(start as int, end as int);
    let n = first_integer(hay, start, end);
    if first && n.is_none() {
        return Err(FreeError::ParseError);
    }
    let ps: u64 = if first {
        n.unwrap()
    } else {
        t.page_size
    };
    if !is_counted_line(hay, start, end) {
        return Ok(PageTotals { page_size: ps, ..t });
    }
    let v = match n {
        None => {
            return Err(FreeError::ParseError);
        },
        Some(v) => v,
    };
    if ps != 0 && v > u64::MAX / ps {
        proof {
            assert(v * ps > u64::MAX) by (nonlinear_arith)
                requires
                    ps != 0,
                    v > u64::MAX / ps,
            ;
        }
        return Err(FreeError::ArithmeticConsistencyError);
    }
    proof {
        if ps != 0 {
            assert(v * ps <= u64::MAX) by (nonlinear_arith)
                requires
                    ps != 0,
                    v <= u64::MAX / ps,
            ;
        }
    }
    let amount: u64 = if ps == 0 {
        0
    } else {
        v * ps
    };
    proof {
        if ps == 0 {
            assert(v * ps == 0) by (nonlinear_arith)
                requires
                    ps == 0,
            ;
        }
    }
    apply_line(t, ps, amount, hay, start, end)
}

/// `acc + extra` where that fits in `u64`.
fn checked_total(acc: u64, extra: u64) -> (r: Option<u64>)
    ensures
        acc + extra <= u64::MAX ==> r == Some((acc + extra) as u64),
        acc + extra > u64::MAX ==> r.is_none(),
{
    if acc > u64::MAX - extra {
        None
    } else {
        Some(acc + extra)
    }
}

/// `amount` where `c` holds, else zero.
fn amount_if(c: bool, amount: u64) -> (r: u64)
    ensures
        r == if_then(c, amount as int),
{
    if c {
        amount
    } else {
        0
    }
}

fn used_after(t: PageTotals, amount: u64, hay: &[u8], start: usize, end: usize) -> (r: Option<
    u64,
>)
    requires
        start <= end <= hay@.len(),
    ensures
        ({
            let v = t.used + used_share(hay@.subrange(start as int, end as int), amount as int);
            (v <= u64::MAX ==> r == Some(v as u64)) && (v > u64::MAX ==> r.is_none())
        }),
{
    let a = amount_if(has_label(hay, start, end, "Pages wired down"), amount);
    let b = amount_if(has_label(hay, start, end, "Pages active"), amount);
    let c = amount_if(has_label(hay, start, end, "Pages inactive"), amount);
    let d = amount_if(has_label(hay, start, end, "Pages speculative"), amount);
    let e = amount_if(has_label(hay, start, end, "Pages occupied by compressor"), amount);
    let u0 = t.used as u128;
    let total: u128 = u0 + a as u128 + b as u128 + c as u128 + d as u128 + e as u128;
    if total > u64::MAX as u128 {
        None
    } else {
        Some(total as u64)
    }
}

fn apply_line(t: PageTotals, ps: u64, amount: u64, hay: &[u8], start: usize, end: usize) -> (r:
    Result<PageTotals, FreeError>)
    requires
        start <= end <= hay@.len(),
    ensures
        r == apply(t, ps, amount as int, hay@.subrange(start as int, end as int)),
{
    let ghost line = hay@.subrange(start as int, end as int);
    let purgeable = has_label(hay, start, end, "Pages purgeable");
    let file_backed = has_label(hay, start, end, "File-backed pages");
    let is_free = has_label(hay, start, end, "Pages free");
    let inactive = has_label(hay, start, end, "Pages inactive");
    let speculative = has_label(hay, start, end, "Pages speculative");
    let cache = checked_total(t.cache, amount_if(purgeable || file_backed, amount));
    let used = used_after(t, amount, hay, start, end);
    let free_in = checked_total(t.free, amount_if(is_free, amount));
    let avail = match checked_total(t.avail, amount_if(is_free, amount)) {
        None => None,
        Some(a) => checked_total(a, amount_if(inactive, amount)),
    };
    assert(cache_after(t, line, amount as int) == t.cache + if_then(purgeable || file_backed, amount as int));
    assert(free_before_speculative(t, line, amount as int) == t.free + if_then(is_free, amount as int));
    assert(avail_after(t, line, amount as int) == t.avail + if_then(is_free, amount as int) + if_then(inactive, amount as int));
    match (cache, used, free_in, avail) {
        (Some(cache), Some(used), Some(free_in), Some(avail)) => {
            if speculative && free_in < amount {
                Err(FreeError::ArithmeticConsistencyError)
            } else {
                let free = free_in - amount_if(speculative, amount);
                Ok(PageTotals { page_size: ps, used, cache, free, avail })
            }
        },
        _ => Err(FreeError::ArithmeticConsistencyError),
    }
}

/// Free, available, cache and used memory in kibibytes from page statistics.
pub fn extract_ex_meminfo(text: &str) -> (r: Result<(u64, u64, u64, u64), FreeError>)
    ensures
        r == page_summary(text.spec_bytes()),
{
    let hay = text.as_bytes();
    let mut t = PageTotals { page_size: 0, used: 0, cache: 0, free: 0, avail: 0 };
    let mut start: usize = 0;
    let mut first = true;
    loop
        invariant_except_break
            fold_lines(hay@, start as int, t, first) == fold_lines(hay@, 0, zero_totals(), true),
        invariant
            start <= hay@.len(),
            hay@ == text.spec_bytes(),
        ensures
            fold_lines(hay@, 0, zero_totals(), true) == Ok::<PageTotals, FreeError>(t),
        decreases hay@.len() - start,
    {
        let end = find_line_end(hay, start);
        proof {
            lemma_line_end_bounds(hay@, start as int);
        }
        let r = step_line(t, hay, start, end, first);
        assert(fold_lines(hay@, start as int, t, first) == match step(t, hay@.subrange(start as int, end as int), first) {
            Err(x) => Err(x),
            Ok(t2) => if end >= hay@.len() { Ok(t2) } else { fold_lines(hay@, end + 1, t2, false) },
        });
        match r {
            Err(e) => {
                return Err(e);
            },
            Ok(t2) => {
                if end >= hay.len() {
                    t = t2;
                    break;
                }
                t = t2;
                first = false;
                start = end + 1;
            },
        }
    }
    if t.used < t.cache {
        return Err(FreeError::ArithmeticConsistencyError);
    }
    let used = t.used - t.cache;
    proof {
        lemma_shift_is_kib(t.free);
        lemma_shift_is_kib(t.avail);
        lemma_shift_is_kib(t.cache);
        lemma_shift_is_kib(used);
    }
    Ok((t.free >> 10, t.avail >> 10, t.cache >> 10, used >> 10))
}

/// Used memory excludes the reclaimable cache, so it is never more than the
/// bytes of all used categories together; where the cache would exceed
/// them, the statistics are refused.
pub proof fn lemma_used_within_categories(s: Seq<u8>)
    ensures
        page_summary(s) matches Ok((_, _, cache, used)) ==> fold_lines(s, 0, zero_totals(), true) matches Ok(t)
            && t.cache <= t.used && cache == t.cache / 1024 && used == (t.used - t.cache) / 1024
            && used <= t.used / 1024,
        fold_lines(s, 0, zero_totals(), true) matches Ok(t) && t.cache > t.used ==> page_summary(s)
            == Err::<(u64, u64, u64, u64), FreeError>(FreeError::ArithmeticConsistencyError),
{
    if let Ok(t) = fold_lines(s, 0, zero_totals(), true) {
        if t.cache <= t.used {
            vstd::arithmetic::div_mod::lemma_div_is_ordered(
                (t.used - t.cache) as int,
                t.used as int,
                1024,
            );
        }
    }
}

pub proof fn lemma_shift_is_kib(x: u64)
    ensures
        x >> 10 == x / 1024,
{
    assert(x >> 10 == x / 1024) by (bit_vector);
}

} // verus!
