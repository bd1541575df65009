//! The three-line report: a header, the memory row and the swap row.
use vstd::prelude::*;
use vstd::string::*;
use crate::error::FreeError;
use crate::meminfo::{divisor_of, init_unixmeminfo, option_is, scaled, snapshot_of, transform_meminfo_by_option, UnixMemInfo};

verus! {

pub open spec fn digit_char(d: nat) -> char {
    ((48 + d % 10) as u8) as char
}

/// Decimal digits of `n`, most significant first, without leading zeros.
pub open spec fn decimal(n: nat) -> Seq<char>
    decreases n,
{
    if n < 10 {
        seq![digit_char(n)]
    } else {
        decimal(n / 10).push(digit_char(n % 10))
    }
}

/// Relies on String's FromIterator<char>: the string of those characters.
#[verifier::external_body]
fn string_of(chars: &Vec<char>) -> (r: String)
    ensures
        r@ == chars@,
{
    chars.iter().collect()
}

fn push_str(out: &mut Vec<char>, s: &str)
    ensures
        final(out)@ == old(out)@ + s@,
{
    let n = s.unicode_len();
    let mut i: usize = 0;
    while i < n
        invariant
            n == s@.len(),
            i <= n,
            out@ == old(out)@ + s@.subrange(0, i as int),
        decreases n - i,
    {
        let c = s.get_char(i);
        out.push(c);
        i = i + 1;
        assert(out@ =~= old(out)@ + s@.subrange(0, i as int));
    }
    assert(s@.subrange(0, n as int) =~= s@);
}

fn push_decimal(out: &mut Vec<char>, n: u64)
    ensures
        final(out)@ == old(out)@ + decimal(n as nat),
    decreases n,
{
    if n >= 10 {
        push_decimal(out, n / 10);
    }
    let d: u8 = (n % 10) as u8;
    out.push((48 + d) as char);
    assert(final(out)@ =~= old(out)@ + decimal(n as nat));
}

/// How figures are laid out, after the unit option.
#[derive(Debug, Clone, Copy, PartialEq, Eq, Structural)]
pub enum Style {
    /// Whole kibibytes, the native unit; also for `-k` and unknown options.
    Native,
    /// Whole mebibytes, for `-m`.
    Mebi,
    /// Whole gibibytes, for `-g`.
    Gibi,
    /// Gibibytes with one decimal and a `GiB` suffix, for `-h`.
    Human,
}

pub open spec fn style_of(option: Seq<char>) -> Style {
    if option == "-m"@ {
        Style::Mebi
    } else if option == "-g"@ {
        Style::Gibi
    } else if option == "-h"@ {
        Style::Human
    } else {
        Style::Native
    }
}

/// Tenths of a gibibyte in `m` mebibytes, to the nearest, ties to even.
pub open spec fn tenths(m: nat) -> nat {
    let q = m * 10 / 1024;
    let r = m * 10 % 1024;
    if r > 512 || (r == 512 && q % 2 == 1) {
        q + 1
    } else {
        q
    }
}

/// `m` mebibytes as gibibytes with one decimal, such as `16.0GiB`.
pub open spec fn gib_text(m: nat) -> Seq<char> {
    decimal(tenths(m) / 10) + "."@ + seq![digit_char(tenths(m) % 10)] + "GiB"@
}

pub open spec fn figure(style: Style, v: u64) -> Seq<char> {
    if style == Style::Human {
        gib_text(v as nat)
    } else {
        decimal(v as nat)
    }
}

pub open spec fn header(style: Style) -> Seq<char> {
    match style {
        Style::Native => "               total         used       free       avail   buff/cache"@,
        Style::Mebi => "            total      used    free    avail buff/cache"@,
        Style::Gibi => "         total   used  free avail buff/cache"@,
        Style::Human => "              total        used       free      avail  buff/cache"@,
    }
}

/// The spaces before the buffer/cache figure.
pub open spec fn cache_gap(style: Style) -> Seq<char> {
    if style == Style::Mebi || style == Style::Gibi {
        "       "@
    } else {
        "      "@
    }
}

pub open spec fn mem_row(style: Style, m: UnixMemInfo) -> Seq<char> {
    "Mem:        "@ + figure(style, m.total) + "     "@ + figure(style, m.used) + "     "@ + figure(
        style,
        m.free,
    ) + "     "@ + figure(style, m.avail) + cache_gap(style) + figure(style, m.buff_cache)
}

pub open spec fn swap_row(style: Style, m: UnixMemInfo) -> Seq<char> {
    "Swap:       "@ + figure(style, m.swap_total) + "     "@ + figure(style, m.swap_used) + "     "@
        + figure(style, m.swap_free)
}

/// Header, memory row and swap row, each ended by a line feed.
pub open spec fn report(style: Style, m: UnixMemInfo) -> Seq<char> {
    header(style) + "\n"@ + mem_row(style, m) + "\n"@ + swap_row(style, m) + "\n"@
}

/// The report for the program arguments: the first argument after the
/// program's name picks the unit, later ones are ignored.
pub open spec fn report_for(args: Seq<String>, m: UnixMemInfo) -> Seq<char> {
    if args.len() > 1 {
        report(style_of(args[1]@), scaled(m, divisor_of(args[1]@)))
    } else {
        report(Style::Native, m)
    }
}

fn tenths_of(m: u64) -> (r: u64)
    ensures
        r == tenths(m as nat),
{
    let x: u128 = m as u128 * 10;
    let q: u128 = x / 1024;
    let r: u128 = x % 1024;
    assert(q <= u64::MAX as u128);
    if r > 512 || (r == 512 && q % 2 == 1) {
        (q + 1) as u64
    } else {
        q as u64
    }
}

fn push_figure(out: &mut Vec<char>, style: Style, v: u64)
    ensures
        final(out)@ == old(out)@ + figure(style, v),
{
    if style == Style::Human {
        let t = tenths_of(v);
        push_decimal(out, t / 10);
        push_str(out, ".");
        let d: u8 = (t % 10) as u8;
        out.push((48 + d) as char);
        push_str(out, "GiB");
        assert(final(out)@ =~= old(out)@ + figure(style, v));
    } else {
        push_decimal(out, v);
    }
}

fn style_for(option: &String) -> (r: Style)
    ensures
        r == style_of(option@),
{
    if option_is(option, "-m") {
        Style::Mebi
    } else if option_is(option, "-g") {
        Style::Gibi
    } else if option_is(option, "-h") {
        Style::Human
    } else {
        Style::Native
    }
}

fn push_header(out: &mut Vec<char>, style: Style)
    ensures
        final(out)@ == old(out)@ + header(style),
{
    match style {
        Style::Native => push_str(
            out,
            "               total         used       free       avail   buff/cache",
        ),
        Style::Mebi => push_str(out, "            total      used    free    avail buff/cache"),
        Style::Gibi => push_str(out, "         total   used  free avail buff/cache"),
        Style::Human => push_str(
            out,
            "              total        used       free      avail  buff/cache",
        ),
    }
}

/// The three report lines for a snapshot already in the style's unit.
pub fn render_report(style: Style, m: &UnixMemInfo) -> (r: String)
    ensures
        r@ == report(style, *m),
{
    let mut out: Vec<char> = Vec::new();
    push_header(&mut out, style);
    push_str(&mut out, "\n");
    push_str(&mut out, "Mem:        ");
    push_figure(&mut out, style, m.total);
    push_str(&mut out, "     ");
    push_figure(&mut out, style, m.used);
    push_str(&mut out, "     ");
    push_figure(&mut out, style, m.free);
    push_str(&mut out, "     ");
    push_figure(&mut out, style, m.avail);
    if style == Style::Mebi || style == Style::Gibi {
        push_str(&mut out, "       ");
    } else {
        push_str(&mut out, "      ");
    }
    push_figure(&mut out, style, m.buff_cache);
    push_str(&mut out, "\n");
    push_str(&mut out, "Swap:       ");
    push_figure(&mut out, style, m.swap_total);
    push_str(&mut out, "     ");
    push_figure(&mut out, style, m.swap_used);
    push_str(&mut out, "     ");
    push_figure(&mut out, style, m.swap_free);
    push_str(&mut out, "\n");
    assert(out@ =~= report(style, *m));
    string_of(&out)
}

/// The report for a snapshot in kibibytes, under the unit that the first
/// argument after the program's name selects.
pub fn format_mem_info(args: &Vec<String>, info: UnixMemInfo) -> (r: String)
    ensures
        r@ == report_for(args@, info),
{
    let mut unixmem_info = info;
    if args.len() > 1 {
        transform_meminfo_by_option(&mut unixmem_info, &args[1]);
        let style = style_for(&args[1]);
        render_report(style, &unixmem_info)
    } else {
        render_report(Style::Native, &unixmem_info)
    }
}

/// The report for the program arguments and the three statistics texts.
pub fn free(args: &Vec<String>, page_stats: &str, memsize: &str, swap: &str) -> (r: Result<
    String,
    FreeError,
>)
    ensures
        r.is_ok() == snapshot_of(page_stats.spec_bytes(), memsize.spec_bytes(), swap.spec_bytes()).is_ok(),
        r matches Err(e) ==> snapshot_of(
            page_stats.spec_bytes(),
            memsize.spec_bytes(),
            swap.spec_bytes(),
        ) == Err::<UnixMemInfo, FreeError>(e),
        r matches Ok(s) ==> snapshot_of(
            page_stats.spec_bytes(),
            memsize.spec_bytes(),
            swap.spec_bytes(),
        ) matches Ok(m) && s@ == report_for(args@, m),
{
    let info = init_unixmeminfo(page_stats, memsize, swap)?;
    Ok(format_mem_info(args, info))
}

/// A missing, unknown or `-k` unit argument gives the native report.
pub proof fn lemma_unknown_option_is_native(args: Seq<String>, m: UnixMemInfo)
    requires
        args.len() > 1 ==> args[1]@ != "-m"@ && args[1]@ != "-g"@ && args[1]@ != "-h"@,
    ensures
        report_for(args, m) == report(Style::Native, m),
{
    if args.len() > 1 {
        assert(scaled(m, divisor_of(args[1]@)) == m);
    }
}

} // verus!
