//! The memory snapshot, how it is built from the three statistics texts, and
//! how it is rescaled for display.
use vstd::prelude::*;
use vstd::arithmetic::div_mod::{lemma_div_denominator, lemma_div_is_ordered_by_denominator};
use vstd::string::*;
use crate::error::FreeError;
use crate::swap::{extract_memsize, extract_swapinfo, memsize_kib, swap_figures};
use crate::vmstat::{extract_ex_meminfo, page_summary};

verus! {

/// Physical and swap memory, in kibibytes when freshly built.
#[derive(Debug, Clone, Copy, PartialEq, Eq, Structural)]
pub struct UnixMemInfo {
    pub total: u64,
    pub used: u64,
    pub free: u64,
    pub avail: u64,
    pub buff_cache: u64,
    pub swap_total: u64,
    pub swap_used: u64,
    pub swap_free: u64,
}

impl UnixMemInfo {
    /// Swap in use plus swap free makes the swap total.
    pub open spec fn swap_consistent(&self) -> bool {
        self.swap_used + self.swap_free == self.swap_total
    }
}

/// The snapshot for the page statistics, memory size and swap usage texts.
/// The swap in use is the total less the free swap.
pub open spec fn snapshot_of(page_stats: Seq<u8>, memsize: Seq<u8>, swap: Seq<u8>) -> Result<
    UnixMemInfo,
    FreeError,
> {
    match memsize_kib(memsize) {
        Err(e) => Err(e),
        Ok(total) => match page_summary(page_stats) {
            Err(e) => Err(e),
            Ok((free, avail, buff_cache, used)) => match swap_figures(swap) {
                Err(e) => Err(e),
                Ok((swap_total, _, swap_free)) => {
                    if swap_free > swap_total {
                        Err(FreeError::ArithmeticConsistencyError)
                    } else {
                        Ok(
                            UnixMemInfo {
                                total,
                                used,
                                free,
                                avail,
                                buff_cache,
                                swap_total,
                                swap_used: (swap_total - swap_free) as u64,
                                swap_free,
                            },
                        )
                    }
                },
            },
        },
    }
}

/// Every snapshot built from well-formed texts has its swap in use and its
/// free swap add up to the swap total.
pub proof fn lemma_snapshot_swap_consistent(page_stats: Seq<u8>, memsize: Seq<u8>, swap: Seq<u8>)
    ensures
        snapshot_of(page_stats, memsize, swap) matches Ok(m) ==> m.swap_consistent(),
{
}

/// The fields in the order total, used, free, available, buffer/cache, swap
/// total, swap used, swap free.
pub open spec fn fields(m: UnixMemInfo) -> Seq<u64> {
    seq![
        m.total,
        m.used,
        m.free,
        m.avail,
        m.buff_cache,
        m.swap_total,
        m.swap_used,
        m.swap_free,
    ]
}

/// The eight figures of the snapshot, in the order of `fields`.
pub fn extract_unixmeminfo(page_stats: &str, memsize: &str, swap: &str) -> (r: Result<
    [u64; 8],
    FreeError,
>)
    ensures
        r.is_ok() == snapshot_of(page_stats.spec_bytes(), memsize.spec_bytes(), swap.spec_bytes()).is_ok(),
        r matches Err(e) ==> snapshot_of(
            page_stats.spec_bytes(),
            memsize.spec_bytes(),
            swap.spec_bytes(),
        ) == Err::<UnixMemInfo, FreeError>(e),
        r matches Ok(a) ==> snapshot_of(
            page_stats.spec_bytes(),
            memsize.spec_bytes(),
            swap.spec_bytes(),
        ) matches Ok(m) && a@ == fields(m),
{
    let total = extract_memsize(memsize)?;
    let (free, avail, buff_cache, used) = extract_ex_meminfo(page_stats)?;
    let (swap_total, _, swap_free) = extract_swapinfo(swap)?;
    if swap_free > swap_total {
        return Err(FreeError::ArithmeticConsistencyError);
    }
    let swap_used = swap_total - swap_free;
    let a = [total, used, free, avail, buff_cache, swap_total, swap_used, swap_free];
    assert(a@ =~= seq![total, used, free, avail, buff_cache, swap_total, swap_used, swap_free]);
    Ok(a)
}

/// The snapshot built from the three statistics texts.
pub fn init_unixmeminfo(page_stats: &str, memsize: &str, swap: &str) -> (r: Result<
    UnixMemInfo,
    FreeError,
>)
    ensures
        r == snapshot_of(page_stats.spec_bytes(), memsize.spec_bytes(), swap.spec_bytes()),
        r matches Ok(m) ==> m.swap_consistent(),
{
    let a = extract_unixmeminfo(page_stats, memsize, swap)?;
    Ok(
        UnixMemInfo {
            total: a[0],
            used: a[1],
            free: a[2],
            avail: a[3],
            buff_cache: a[4],
            swap_total: a[5],
            swap_used: a[6],
            swap_free: a[7],
        },
    )
}

/// The divisor for a unit option: mebibytes for `-m` and `-h`, gibibytes for
/// `-g`, and kibibytes, the native unit, for anything else.
pub open spec fn divisor_of(option: Seq<char>) -> u64 {
    if option == "-m"@ || option == "-h"@ {
        1024
    } else if option == "-g"@ {
        1048576
    } else {
        1
    }
}

/// Every field divided by `d`, truncating.
pub open spec fn scaled(m: UnixMemInfo, d: u64) -> UnixMemInfo {
    UnixMemInfo {
        total: m.total / d,
        used: m.used / d,
        free: m.free / d,
        avail: m.avail / d,
        buff_cache: m.buff_cache / d,
        swap_total: m.swap_total / d,
        swap_used: m.swap_used / d,
        swap_free: m.swap_free / d,
    }
}

pub(crate) fn option_is(option: &String, name: &str) -> (r: bool)
    ensures
        r == (option@ == name@),
{
    let n = name.to_owned();
    *option == n
}

/// Rescales the snapshot for the unit that `option` selects.
pub fn transform_meminfo_by_option(unixmem_info: &mut UnixMemInfo, option: &String)
    ensures
        *final(unixmem_info) == scaled(*old(unixmem_info), divisor_of(option@)),
{
    let mut diviser: u64 = 1;
    if option_is(option, "-m") || option_is(option, "-h") {
        diviser = diviser << 10;
    } else if option_is(option, "-g") {
        diviser = diviser << 20;
    }
    assert(1u64 << 10u64 == 1024) by (bit_vector);
    assert(1u64 << 20u64 == 1048576) by (bit_vector);
    unixmem_info.total = unixmem_info.total / diviser;
    unixmem_info.used = unixmem_info.used / diviser;
    unixmem_info.free = unixmem_info.free / diviser;
    unixmem_info.avail = unixmem_info.avail / diviser;
    unixmem_info.buff_cache = unixmem_info.buff_cache / diviser;
    unixmem_info.swap_total = unixmem_info.swap_total / diviser;
    unixmem_info.swap_used = unixmem_info.swap_used / diviser;
    unixmem_info.swap_free = unixmem_info.swap_free / diviser;
}

/// Rescaling for the native unit leaves the snapshot as it is, however often
/// it is applied.
pub proof fn lemma_native_transform_identity(m: UnixMemInfo, option: Seq<char>)
    requires
        divisor_of(option) == 1,
    ensures
        scaled(m, divisor_of(option)) == m,
        scaled(scaled(m, divisor_of(option)), divisor_of(option)) == m,
{
}

/// Rescaling never makes a field larger.
pub proof fn lemma_transform_not_larger(m: UnixMemInfo, option: Seq<char>)
    ensures
        ({
            let t = scaled(m, divisor_of(option));
            &&& t.total <= m.total
            &&& t.used <= m.used
            &&& t.free <= m.free
            &&& t.avail <= m.avail
            &&& t.buff_cache <= m.buff_cache
            &&& t.swap_total <= m.swap_total
            &&& t.swap_used <= m.swap_used
            &&& t.swap_free <= m.swap_free
        }),
{
    let d = divisor_of(option) as int;
    assert forall|x: u64| #[trigger] (x / divisor_of(option)) <= x by {
        lemma_div_is_ordered_by_denominator(x as int, 1, d);
    }
}

/// Rescaling to mebibytes twice truncates twice: it gives the gibibyte
/// figures, not the mebibyte ones again.
pub proof fn lemma_mebibyte_twice_is_gibibyte(m: UnixMemInfo)
    ensures
        scaled(scaled(m, divisor_of("-m"@)), divisor_of("-m"@)) == scaled(m, divisor_of("-g"@)),
{
    reveal_strlit("-m");
    reveal_strlit("-g");
    reveal_strlit("-h");
    assert(divisor_of("-m"@) == 1024);
    assert("-g"@[1] != "-m"@[1] && "-g"@[1] != "-h"@[1]);
    assert(divisor_of("-g"@) == 1048576);
    assert forall|x: u64| #[trigger] ((x / 1024) / 1024) == x / 1048576 by {
        lemma_div_denominator(x as int, 1024, 1024);
    }
}

} // verus!
