use free::error::FreeError;
use free::meminfo::{extract_unixmeminfo, init_unixmeminfo, transform_meminfo_by_option, UnixMemInfo};
use free::render::{format_mem_info, free, render_report, Style};
use free::swap::{extract_memsize, extract_swapinfo};
use free::text::{contains_bytes, first_integer, parse_digits};
use free::vmstat::{extract_ex_meminfo, is_used_memory};

const PAGE_HEADER: &str = "Mach Virtual Memory Statistics: (page size of 4096 bytes)\n";

fn page_text(lines: &[&str]) -> String {
    let mut s = String::from(PAGE_HEADER);
    for l in lines {
        s.push_str(l);
        s.push('\n');
    }
    s
}

fn args(list: &[&str]) -> Vec<String> {
    list.iter().map(|s| s.to_string()).collect()
}

fn sample() -> UnixMemInfo {
    UnixMemInfo {
        total: 16777216,
        used: 8000000,
        free: 1000,
        avail: 2000,
        buff_cache: 3000,
        swap_total: 2048,
        swap_used: 1024,
        swap_free: 1024,
    }
}

#[test]
fn page_stats_free_available_and_used() {
    let text = page_text(&[
        "Pages free: 100.",
        "Pages inactive: 50.",
        "Pages speculative: 20.",
        "Pages wired down: 30.",
    ]);
    let (free, avail, cache, used) = extract_ex_meminfo(&text).unwrap();
    assert_eq!(free, (100 - 20) * 4096 / 1024);
    assert_eq!(avail, (100 + 50) * 4096 / 1024);
    assert_eq!(cache, 0);
    assert_eq!(used, (30 + 50 + 20) * 4096 / 1024);
}

#[test]
fn page_stats_wired_contribution() {
    let text = page_text(&["Pages wired down: 30."]);
    let (_, _, _, used) = extract_ex_meminfo(&text).unwrap();
    assert_eq!(used, 30 * 4096 / 1024);
}

#[test]
fn page_stats_cache_is_taken_out_of_used() {
    let text = page_text(&[
        "Pages active: 1000.",
        "Pages occupied by compressor: 500.",
        "Pages purgeable: 100.",
        "File-backed pages: 300.",
    ]);
    let (_, _, cache, used) = extract_ex_meminfo(&text).unwrap();
    assert_eq!(cache, 400 * 4096 / 1024);
    assert_eq!(used, (1500 - 400) * 4096 / 1024);
    assert!(used <= 1500 * 4096 / 1024);
}

#[test]
fn page_stats_converts_after_summing() {
    let text = "Page size 100\nPages free: 7.\nPages inactive: 7.\n";
    let (free, avail, _, _) = extract_ex_meminfo(text).unwrap();
    assert_eq!(free, 700 / 1024);
    assert_eq!(avail, 1400 / 1024);
    assert_eq!(avail, 1);
}

#[test]
fn page_stats_cache_larger_than_used_is_refused() {
    let text = page_text(&["Pages active: 10.", "File-backed pages: 20."]);
    assert_eq!(extract_ex_meminfo(&text), Err(FreeError::ArithmeticConsistencyError));
}

#[test]
fn page_stats_speculative_beyond_free_is_refused() {
    let text = page_text(&["Pages speculative: 20.", "Pages free: 100."]);
    assert_eq!(extract_ex_meminfo(&text), Err(FreeError::ArithmeticConsistencyError));
}

#[test]
fn page_stats_label_without_number_is_refused() {
    let text = page_text(&["Pages free: none."]);
    assert_eq!(extract_ex_meminfo(&text), Err(FreeError::ParseError));
}

#[test]
fn page_stats_without_page_size_is_refused() {
    assert_eq!(extract_ex_meminfo(""), Err(FreeError::ParseError));
    assert_eq!(extract_ex_meminfo("no size here\nPages free: 1.\n"), Err(FreeError::ParseError));
}

#[test]
fn page_stats_unlabelled_lines_are_ignored() {
    let text = page_text(&["Translation faults: abc.", "Pages free: 1."]);
    assert_eq!(extract_ex_meminfo(&text), Ok((4, 4, 0, 0)));
}

#[test]
fn swap_figures_in_kibibytes() {
    let text = "vm.swapusage: total = 8192.00M  used = 1024.50M  free = 7167.50M  (encrypted)";
    assert_eq!(extract_swapinfo(text), Ok((8388608, 1049088, 7339520)));
}

#[test]
fn swap_fractions_truncate() {
    assert_eq!(extract_swapinfo("0.001 1.999 3"), Ok((1, 2046, 3072)));
}

#[test]
fn swap_with_too_few_numbers_is_refused() {
    assert_eq!(extract_swapinfo("total = 8192.00M used = 1.00M"), Err(FreeError::ParseError));
    assert_eq!(extract_swapinfo(""), Err(FreeError::ParseError));
}

#[test]
fn memsize_in_kibibytes() {
    assert_eq!(extract_memsize("hw.memsize: 17179869184\n"), Ok(16777216));
    assert_eq!(extract_memsize("hw.memsize: 1023"), Ok(0));
    assert_eq!(extract_memsize("hw.memsize:"), Err(FreeError::ParseError));
    assert_eq!(extract_memsize("99999999999999999999999"), Err(FreeError::ParseError));
}

#[test]
fn first_integer_finds_the_first_run() {
    let hay = b"abc 123 456";
    assert_eq!(first_integer(hay, 0, hay.len()), Some(123));
    assert_eq!(first_integer(hay, 5, hay.len()), Some(23));
    assert_eq!(first_integer(hay, 0, 3), None);
    assert_eq!(parse_digits(b"0042", 0, 4), Some(42));
    assert_eq!(parse_digits(b"18446744073709551616", 0, 20), None);
}

#[test]
fn label_containment_is_case_sensitive() {
    let hay = b"Pages wired down: 3.";
    assert!(contains_bytes(hay, 0, hay.len(), b"wired down"));
    assert!(!contains_bytes(hay, 0, hay.len(), b"Wired"));
    assert!(contains_bytes(hay, 0, hay.len(), b""));
    assert!(!contains_bytes(hay, 0, 5, b"Pages wired"));
}

#[test]
fn snapshot_swap_adds_up() {
    let pages = page_text(&["Pages free: 100.", "Pages active: 10."]);
    let swap = "vm.swapusage: total = 8192.00M  used = 1024.50M  free = 7167.50M  (encrypted)";
    let m = init_unixmeminfo(&pages, "hw.memsize: 17179869184", swap).unwrap();
    assert_eq!(m.swap_used + m.swap_free, m.swap_total);
    assert_eq!(m.swap_used, 1049088);
    assert_eq!(m.total, 16777216);
    assert_eq!(m.free, 400);
    assert_eq!(m.used, 40);
    let a = extract_unixmeminfo(&pages, "hw.memsize: 17179869184", swap).unwrap();
    assert_eq!(a, [16777216, 40, 400, 400, 0, 8388608, 1049088, 7339520]);
}

#[test]
fn snapshot_with_free_swap_beyond_total_is_refused() {
    let pages = page_text(&["Pages free: 1."]);
    let r = init_unixmeminfo(&pages, "4096", "total = 1.00M used = 0.00M free = 2.00M");
    assert_eq!(r, Err(FreeError::ArithmeticConsistencyError));
}

#[test]
fn transform_pins_truncated_values() {
    let mut m = sample();
    transform_meminfo_by_option(&mut m, &"-m".to_string());
    assert_eq!(m.total, 16384);
    assert_eq!(m.used, 7812);
    assert_eq!(m.free, 0);
    transform_meminfo_by_option(&mut m, &"-m".to_string());
    assert_eq!(m.total, 16);
    assert_eq!(m.used, 7);

    let mut g = sample();
    transform_meminfo_by_option(&mut g, &"-g".to_string());
    assert_eq!(g.total, 16);
    assert_eq!(g.used, 7);

    let mut k = sample();
    transform_meminfo_by_option(&mut k, &"-k".to_string());
    assert_eq!(k, sample());
    transform_meminfo_by_option(&mut k, &"-k".to_string());
    assert_eq!(k, sample());
}

#[test]
fn native_report_layout() {
    let r = format_mem_info(&args(&["free"]), sample());
    assert_eq!(
        r,
        "               total         used       free       avail   buff/cache\n\
         Mem:        16777216     8000000     1000     2000      3000\n\
         Swap:       2048     1024     1024\n"
    );
}

#[test]
fn mebibyte_report_layout() {
    let r = format_mem_info(&args(&["free", "-m"]), sample());
    assert_eq!(
        r,
        "            total      used    free    avail buff/cache\n\
         Mem:        16384     7812     0     1       2\n\
         Swap:       2     1     1\n"
    );
}

#[test]
fn gibibyte_report_layout() {
    let r = format_mem_info(&args(&["free", "-g"]), sample());
    assert_eq!(
        r,
        "         total   used  free avail buff/cache\n\
         Mem:        16     7     0     0       0\n\
         Swap:       0     0     0\n"
    );
}

#[test]
fn human_report_total() {
    let r = format_mem_info(&args(&["free", "-h"]), sample());
    let lines: Vec<&str> = r.lines().collect();
    assert_eq!(lines.len(), 3);
    assert_eq!(lines[0], "              total        used       free      avail  buff/cache");
    assert!(lines[1].starts_with("Mem:        16.0GiB     7.6GiB     0.0GiB     0.0GiB      0.0GiB"));
    assert_eq!(lines[2], "Swap:       0.0GiB     0.0GiB     0.0GiB");
}

#[test]
fn human_figures_round_to_nearest_tenth() {
    let mut m = sample();
    m.total = 1075;
    m.used = 256;
    m.free = 768;
    m.avail = 1587;
    m.buff_cache = 1023;
    let r = render_report(Style::Human, &m);
    let mem = r.lines().nth(1).unwrap().to_string();
    assert_eq!(mem, "Mem:        1.0GiB     0.2GiB     0.8GiB     1.5GiB      1.0GiB");
}

#[test]
fn unknown_or_missing_option_is_native() {
    let native = format_mem_info(&args(&["free"]), sample());
    assert_eq!(format_mem_info(&args(&["free", "-x"]), sample()), native);
    assert_eq!(format_mem_info(&args(&["free", "-k"]), sample()), native);
    assert_eq!(format_mem_info(&args(&[]), sample()), native);
    assert_eq!(format_mem_info(&args(&["free", "--mega"]), sample()), native);
}

#[test]
fn later_arguments_are_ignored() {
    let a = format_mem_info(&args(&["free", "-m", "-g"]), sample());
    assert_eq!(a, format_mem_info(&args(&["free", "-m"]), sample()));
}

#[test]
fn free_builds_the_whole_report() {
    let pages = page_text(&["Pages free: 256.", "Pages wired down: 512."]);
    let swap = "vm.swapusage: total = 2.00M  used = 1.00M  free = 1.00M  (encrypted)";
    let r = free(&args(&["free"]), &pages, "hw.memsize: 4194304", swap).unwrap();
    assert_eq!(
        r,
        "               total         used       free       avail   buff/cache\n\
         Mem:        4096     2048     1024     1024      0\n\
         Swap:       2048     1024     1024\n"
    );
    assert_eq!(free(&args(&["free"]), &pages, "none", swap), Err(FreeError::ParseError));
}

#[test]
fn used_memory_labels_match_by_containment() {
    assert!(is_used_memory(b"Pages wired down:   30.", "Pages wired down"));
    assert!(!is_used_memory(b"Pages inactive: 5.", "Pages active"));
    assert!(!is_used_memory(b"pages active: 5.", "Pages active"));
}
