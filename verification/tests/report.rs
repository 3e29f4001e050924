use dirsize::chart::bar_len;
use dirsize::chart::color_prefix;
use dirsize::chart::spinner_frame;
use dirsize::entries::DirEntry;
use dirsize::entries::sort_entries;
use dirsize::entries::sum_sizes;
use dirsize::entries::sum_u64;
use dirsize::numfmt::add_thousands_sep;
use dirsize::numfmt::format_mb;
use dirsize::report::render_report;

fn entry(path: &str, size: u64) -> DirEntry {
    DirEntry { path: String::from(path), size }
}

#[test]
fn thousands_sep_examples() {
    assert_eq!(add_thousands_sep("1234567.89"), "1,234,567.89");
    assert_eq!(add_thousands_sep("999.99"), "999.99");
    assert_eq!(add_thousands_sep("0.00"), "0.00");
}

#[test]
fn thousands_sep_integer_only() {
    assert_eq!(add_thousands_sep("1234567"), "1,234,567");
    assert_eq!(add_thousands_sep("123"), "123");
    assert_eq!(add_thousands_sep("1000"), "1,000");
    assert_eq!(add_thousands_sep(""), "");
}

#[test]
fn thousands_sep_fraction_untouched() {
    assert_eq!(add_thousands_sep("1234.56789"), "1,234.56789");
    assert_eq!(add_thousands_sep("1.2.3"), "1.2");
    assert_eq!(add_thousands_sep("."), ".");
}

#[test]
fn format_mb_exact_values() {
    assert_eq!(format_mb(0), "0.00");
    assert_eq!(format_mb(1048576), "1.00");
    assert_eq!(format_mb(1_000_000), "0.95");
    assert_eq!(format_mb(2_000_000), "1.91");
    assert_eq!(format_mb(3_000_000), "2.86");
    assert_eq!(format_mb(1073741824), "1,024.00");
    assert_eq!(format_mb(1099511627776), "1,048,576.00");
}

#[test]
fn format_mb_rounds_ties_to_even() {
    // 131072 bytes is exactly 0.125 MB; 393216 bytes is exactly 0.375 MB.
    assert_eq!(format_mb(131072), "0.12");
    assert_eq!(format_mb(393216), "0.38");
}

#[test]
fn two_subdirectories_order_and_bars() {
    let entries = vec![entry("R/A", 1_000_000), entry("R/B", 2_000_000)];
    let lines = render_report(entries).unwrap();
    assert_eq!(lines.len(), 3);
    let bar50 = "\u{275a}".repeat(50);
    let bar25 = "\u{275a}".repeat(25);
    assert_eq!(lines[0], format!("\u{1b}[31m{}\u{1b}[0m R/B (1.91 MB)", bar50));
    assert_eq!(lines[1], format!("\u{1b}[32m{}\u{1b}[0m R/A (0.95 MB)", bar25));
    assert_eq!(lines[2], "Total size: 2.86 MB");
}

#[test]
fn total_formats_the_byte_sum_not_the_rounded_parts() {
    // Each part alone prints 0.12 MB; the total is formatted from the byte
    // sum, 0.25 MB, not from 0.12 + 0.12.
    let entries = vec![entry("a", 131072), entry("b", 131072)];
    let lines = render_report(entries).unwrap();
    assert_eq!(lines.len(), 3);
    assert!(lines[0].ends_with("a (0.12 MB)"));
    assert!(lines[1].ends_with("b (0.12 MB)"));
    assert_eq!(lines[2], format!("Total size: {} MB", format_mb(262144)));
    assert_eq!(lines[2], "Total size: 0.25 MB");
}

#[test]
fn empty_subdirectories_zero_sizes_min_bars() {
    let entries = vec![entry("a", 0), entry("b", 0), entry("c", 0)];
    let lines = render_report(entries).unwrap();
    assert_eq!(lines.len(), 4);
    assert_eq!(lines[0], "\u{1b}[31m\u{275a}\u{1b}[0m a (0.00 MB)");
    assert_eq!(lines[1], "\u{1b}[32m\u{275a}\u{1b}[0m b (0.00 MB)");
    assert_eq!(lines[2], "\u{1b}[33m\u{275a}\u{1b}[0m c (0.00 MB)");
    assert_eq!(lines[3], "Total size: 0.00 MB");
}

#[test]
fn no_subdirectories_empty_listing() {
    let lines = render_report(Vec::new()).unwrap();
    assert_eq!(lines, vec![String::from("Total size: 0.00 MB")]);
}

#[test]
fn repeated_run_identical_output() {
    let first = render_report(vec![entry("x", 10), entry("y", 999), entry("z", 10)]).unwrap();
    let second = render_report(vec![entry("x", 10), entry("y", 999), entry("z", 10)]).unwrap();
    assert_eq!(first, second);
}

#[test]
fn sort_is_descending_and_stable() {
    let sorted = sort_entries(vec![
        entry("a", 10),
        entry("b", 5),
        entry("c", 10),
        entry("d", 7),
    ]);
    let paths: Vec<&str> = sorted.iter().map(|e| e.path.as_str()).collect();
    assert_eq!(paths, vec!["a", "c", "d", "b"]);
}

#[test]
fn equal_sizes_keep_input_order() {
    let sorted = sort_entries(vec![entry("p", 5), entry("q", 5), entry("r", 5)]);
    let paths: Vec<&str> = sorted.iter().map(|e| e.path.as_str()).collect();
    assert_eq!(paths, vec!["p", "q", "r"]);
}

#[test]
fn sums_are_exact() {
    let entries = vec![entry("a", 1), entry("b", 2), entry("c", 3)];
    assert_eq!(sum_sizes(&entries), Some(6));
    assert_eq!(sum_u64(&vec![4u64, 5u64]), Some(9));
    assert_eq!(sum_u64(&Vec::new()), Some(0));
}

#[test]
fn total_overflow_reported() {
    let entries = vec![entry("a", u64::MAX), entry("b", 1)];
    assert!(sum_sizes(&entries).is_none());
    assert!(render_report(entries).is_none());
    assert!(sum_u64(&vec![u64::MAX, 1u64]).is_none());
}

#[test]
fn bar_lengths_scale_and_floor() {
    assert_eq!(bar_len(0, 0), 1);
    assert_eq!(bar_len(0, 7), 1);
    assert_eq!(bar_len(1, 2_000_000), 1);
    assert_eq!(bar_len(1_000_000, 2_000_000), 25);
    assert_eq!(bar_len(2_000_000, 2_000_000), 50);
    assert_eq!(bar_len(999_999, 2_000_000), 25);
}

#[test]
fn spinner_cycles_four_frames() {
    assert_eq!(spinner_frame(1), "/");
    assert_eq!(spinner_frame(2), "-");
    assert_eq!(spinner_frame(3), "\\");
    assert_eq!(spinner_frame(4), "|");
    assert_eq!(spinner_frame(5), "/");
}

#[test]
fn colors_cycle_six_wide() {
    assert_eq!(color_prefix(0), "\u{1b}[31m");
    assert_eq!(color_prefix(1), "\u{1b}[32m");
    assert_eq!(color_prefix(2), "\u{1b}[33m");
    assert_eq!(color_prefix(3), "\u{1b}[34m");
    assert_eq!(color_prefix(4), "\u{1b}[35m");
    assert_eq!(color_prefix(5), "\u{1b}[36m");
    assert_eq!(color_prefix(6), "\u{1b}[31m");
}
