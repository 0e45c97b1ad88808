use hugetop::MappingEntry;
use hugetop::PoolEntry;
use hugetop::PoolError;
use hugetop::PoolSource;
use hugetop::aggregate_process;
use hugetop::build_process_report;
use hugetop::construct_str;
use hugetop::construct_system_str;
use hugetop::filter_huge_mappings;
use hugetop::format_process_str;
use hugetop::parse_count;
use hugetop::parse_pid;
use hugetop::parse_smap_entries;
use hugetop::parse_u64_dec;
use hugetop::pool_entries_from_sources;
use hugetop::pool_entry_from_source;
use hugetop::pool_summary;
use hugetop::process_name_from_status;
use hugetop::size_from_dir_name;
use hugetop::size_label;

fn source(dir_name: &str, total_text: &str, free_text: &str) -> PoolSource {
    PoolSource {
        dir_name: dir_name.to_string(),
        total_text: total_text.to_string(),
        free_text: free_text.to_string(),
    }
}

fn mapping(kernel: u64, private: u64, shared: u64) -> MappingEntry {
    MappingEntry {
        kernel_page_size_kb: kernel,
        private_hugetlb_kb: private,
        shared_hugetlb_kb: shared,
    }
}

#[test]
fn test_simple() {
    let pools = pool_entries_from_sources(&Vec::new()).unwrap();
    let out = construct_str("12:00:00", "up 1 min", "1 user", &pools, &Vec::new());
    assert!(out.starts_with("top - "));
    assert!(out.contains("PID"));
}

#[test]
fn test_invalid_arg() {
    let bad = source("--definitely-invalid", "100\n", "40\n");
    assert_eq!(pool_entry_from_source(&bad), Err(PoolError::BadDirName));
    assert_eq!(pool_entries_from_sources(&vec![bad]), Err(PoolError::BadDirName));
}

#[test]
fn pool_round_trip() {
    let sources = vec![
        source("hugepages-2048kB", "100\n", "40\n"),
        source("hugepages-1048576kB", " 7 ", "0"),
    ];
    let entries = pool_entries_from_sources(&sources).unwrap();
    assert_eq!(entries.len(), 2);
    assert_eq!(entries[0], PoolEntry { size_kb: 2048, free: 40, total: 100 });
    assert_eq!(entries[1], PoolEntry { size_kb: 1048576, free: 0, total: 7 });
}

#[test]
fn pool_failure_propagation() {
    let sources = vec![
        source("hugepages-2048kB", "100\n", "40\n"),
        source("hugepages-1048576kB", "not-a-number\n", "0\n"),
        source("hugepages-64kB", "5\n", "5\n"),
    ];
    assert_eq!(pool_entries_from_sources(&sources), Err(PoolError::BadCount));
}

#[test]
fn pool_bad_free_count() {
    let one = source("hugepages-2048kB", "100\n", "\n");
    assert_eq!(pool_entry_from_source(&one), Err(PoolError::BadCount));
}

#[test]
fn pool_bad_dir_name() {
    let one = source("hugepages", "100\n", "40\n");
    assert_eq!(pool_entry_from_source(&one), Err(PoolError::BadDirName));
    let sources = vec![one];
    assert_eq!(pool_entries_from_sources(&sources), Err(PoolError::BadDirName));
}

#[test]
fn pool_count_trimmed() {
    assert_eq!(parse_count("  40\t\n"), Some(40));
    assert_eq!(parse_count("40"), Some(40));
    assert_eq!(parse_count("4x"), None);
    assert_eq!(parse_count(""), None);
    assert_eq!(parse_count("  "), None);
}

#[test]
fn dir_name_size_token() {
    assert_eq!(size_from_dir_name("hugepages-2048kB"), Some(2048));
    assert_eq!(size_from_dir_name("hugepages-1048576kB"), Some(1048576));
    assert_eq!(size_from_dir_name("hugepages-64"), Some(64));
    assert_eq!(size_from_dir_name("a-32kB-b"), Some(32));
    assert_eq!(size_from_dir_name("hugepages"), None);
    assert_eq!(size_from_dir_name("hugepages-kB"), None);
    assert_eq!(size_from_dir_name("hugepages-20a48kB"), None);
    assert_eq!(size_from_dir_name("hugepages-"), None);
}

#[test]
fn numeral_parsing() {
    assert_eq!(parse_u64_dec("0"), Some(0));
    assert_eq!(parse_u64_dec("42"), Some(42));
    assert_eq!(parse_u64_dec("007"), Some(7));
    assert_eq!(parse_u64_dec("18446744073709551615"), Some(u64::MAX));
    assert_eq!(parse_u64_dec("18446744073709551616"), None);
    assert_eq!(parse_u64_dec(""), None);
    assert_eq!(parse_u64_dec("1a"), None);
    assert_eq!(parse_u64_dec("-1"), None);
}

#[test]
fn mapping_block_count() {
    let text = "55aa000-55ab000 rw-p 00000000 00:00 0\n\
                KernelPageSize:     2048 kB\n\
                Private_Hugetlb:    4096 kB\n\
                Shared_Hugetlb:        0 kB\n\
                VmFlags: rd wr me\n\
                7f000000-7f100000 r--p 00000000 08:01 123 /bin/cat\n\
                KernelPageSize:        4 kB\n";
    let entries = parse_smap_entries(text);
    assert_eq!(entries.len(), 2);
    assert_eq!(entries[0], mapping(2048, 4096, 0));
    assert_eq!(entries[1], mapping(4, 0, 0));
}

#[test]
fn mapping_block_count_no_fields() {
    let text = "55aa000-55ab000 rw-p 00000000 00:00 0\n\
                7f000000-7f100000 r--p 00000000 08:01 123 /bin/cat\n\
                7f200000-7f300000 r-xp 00000000 08:01 124 /bin/cat\n";
    let entries = parse_smap_entries(text);
    assert_eq!(entries.len(), 3);
    assert_eq!(entries[0], mapping(0, 0, 0));
}

#[test]
fn missing_field_tolerance() {
    let text = "55aa000-55ab000 rw-s 00000000 00:0f 77 /anon_hugepage\n\
                KernelPageSize:     2048 kB\n\
                Shared_Hugetlb:     6144 kB\n\
                7f000000-7f100000 rw-s 00000000 00:0f 78 /anon_hugepage\n\
                KernelPageSize:     2048 kB\n\
                Private_Hugetlb:    2048 kB\n";
    let entries = parse_smap_entries(text);
    assert_eq!(entries.len(), 2);
    assert_eq!(entries[0], mapping(2048, 0, 6144));
    assert_eq!(entries[1], mapping(2048, 2048, 0));
}

#[test]
fn malformed_numeral_is_zero() {
    let text = "55aa000-55ab000 rw-p 00000000 00:00 0\n\
                KernelPageSize:     what kB\n\
                Private_Hugetlb:    99999999999999999999999999 kB\n";
    let entries = parse_smap_entries(text);
    assert_eq!(entries.len(), 1);
    assert_eq!(entries[0], mapping(0, 0, 0));
}

#[test]
fn empty_descriptor_is_empty() {
    assert_eq!(parse_smap_entries("").len(), 0);
    assert_eq!(parse_smap_entries("\n\n").len(), 0);
}

#[test]
fn fields_before_any_header_are_skipped() {
    let text = "KernelPageSize:     2048 kB\n\
                55aa000-55ab000 rw-p 00000000 00:00 0\n\
                Private_Hugetlb:    4096 kB\n";
    let entries = parse_smap_entries(text);
    assert_eq!(entries.len(), 1);
    assert_eq!(entries[0], mapping(0, 4096, 0));
}

#[test]
fn filter_threshold_edges() {
    let entries = vec![mapping(2023, 1, 1), mapping(2024, 2, 2), mapping(2048, 3, 3)];
    let kept = filter_huge_mappings(entries);
    assert_eq!(kept, vec![mapping(2024, 2, 2), mapping(2048, 3, 3)]);
}

#[test]
fn filter_idempotent() {
    let entries = vec![mapping(4, 0, 0), mapping(2048, 4096, 0), mapping(1048576, 0, 8192)];
    let once = filter_huge_mappings(entries);
    let twice = filter_huge_mappings(once.clone());
    assert_eq!(once, twice);
}

#[test]
fn empty_result_omission() {
    let entries = vec![mapping(4, 0, 0), mapping(64, 0, 0), mapping(2023, 0, 0)];
    let report = aggregate_process(7, "idle".to_string(), entries);
    assert!(report.is_none());
}

#[test]
fn aggregate_keeps_order_and_names() {
    let entries = vec![mapping(4, 1, 1), mapping(2048, 10, 20), mapping(1048576, 30, 40)];
    let report = aggregate_process(321, "worker".to_string(), entries).unwrap();
    assert_eq!(report.pid, 321);
    assert_eq!(report.name, "worker");
    assert_eq!(report.entries, vec![mapping(2048, 10, 20), mapping(1048576, 30, 40)]);
}

#[test]
fn status_name_extraction() {
    assert_eq!(process_name_from_status("Name:\tbash\nUmask:\t0022\n"), "bash");
    assert_eq!(process_name_from_status("Name: my proc \n"), "my proc");
    assert_eq!(process_name_from_status("Name:a:b\n"), "a");
    assert_eq!(process_name_from_status("no separator here\n"), "");
    assert_eq!(process_name_from_status(""), "");
}

#[test]
fn pid_parsing() {
    assert_eq!(parse_pid("1"), Some(1));
    assert_eq!(parse_pid("4294967295"), Some(u32::MAX));
    assert_eq!(parse_pid("4294967296"), None);
    assert_eq!(parse_pid("self"), None);
    assert_eq!(parse_pid(""), None);
}

#[test]
fn size_labels() {
    assert_eq!(size_label(2048), "2Mi");
    assert_eq!(size_label(1048576), "1Gi");
    assert_eq!(size_label(64), "64");
    assert_eq!(size_label(123456), "123456");
}

#[test]
fn pool_summary_format() {
    let entry = PoolEntry { size_kb: 2048, free: 40, total: 100 };
    assert_eq!(pool_summary(&entry), "2Mi - 40/100");
}

#[test]
fn system_section_one_pool() {
    let sources = vec![source("hugepages-2048kB", "100\n", "40\n")];
    let entries = pool_entries_from_sources(&sources).unwrap();
    let out = construct_system_str("12:00:00", "up 1 min", "1 user", &entries);
    assert_eq!(out, "top - 12:00:00 up 1 min, 1 user, 2Mi - 40/100\n");
    let summary_line = out.lines().next().unwrap();
    assert!(summary_line.contains("2Mi - 40/100"));
}

#[test]
fn system_section_joins_pools() {
    let entries = vec![
        PoolEntry { size_kb: 2048, free: 1, total: 2 },
        PoolEntry { size_kb: 1048576, free: 3, total: 4 },
    ];
    let out = construct_system_str("t", "u", "v", &entries);
    assert_eq!(out, "top - t u, v, 2Mi - 1/2, 1Gi - 3/4\n");
}

#[test]
fn system_section_empty_pool_list() {
    let entries = Vec::new();
    let out = construct_system_str("t", "u", "v", &entries);
    assert_eq!(out, "top - t u, v\n");
}

#[test]
fn process_table_rows() {
    let text = "55aa000-55ab000 rw-s 00000000 00:0f 77 /anon_hugepage\n\
                KernelPageSize:     2048 kB\n\
                Private_Hugetlb:    4096 kB\n\
                Shared_Hugetlb:        0 kB\n\
                7f000000-7f100000 r--p 00000000 08:01 123 /bin/cat\n\
                KernelPageSize:        4 kB\n";
    let report = build_process_report(42, "Name:\tmyproc\n", text).unwrap();
    assert_eq!(report.entries.len(), 1);
    let out = format_process_str(&vec![report]);
    let expected_header = format!(
        "{:<8} {:<12} {:<12} {:<12}\n",
        "PID", "Private", "Shared", "Process"
    );
    let expected_row = format!("{:<8} {:<12} {:<12} {:<12}\n", 42, 4096, 0, "myproc");
    let mut expected = expected_header;
    expected.push_str(&expected_row);
    assert_eq!(out, expected);
}

#[test]
fn process_with_many_mappings_repeats_identity() {
    let entries = vec![mapping(2048, 10, 20), mapping(2048, 30, 40)];
    let report = aggregate_process(9, "db".to_string(), entries).unwrap();
    let out = format_process_str(&vec![report]);
    let lines: Vec<&str> = out.lines().collect();
    assert_eq!(lines.len(), 3);
    assert_eq!(lines[1], format!("{:<8} {:<12} {:<12} {:<12}", 9, 10, 20, "db"));
    assert_eq!(lines[2], format!("{:<8} {:<12} {:<12} {:<12}", 9, 30, 40, "db"));
}

#[test]
fn empty_process_set_renders_header_only() {
    let pools = vec![PoolEntry { size_kb: 2048, free: 40, total: 100 }];
    let out = construct_str("12:00:00", "up 1 min", "1 user", &pools, &Vec::new());
    let expected_header = format!(
        "{:<8} {:<12} {:<12} {:<12}\n",
        "PID", "Private", "Shared", "Process"
    );
    let mut expected = String::from("top - 12:00:00 up 1 min, 1 user, 2Mi - 40/100\n");
    expected.push_str(&expected_header);
    assert_eq!(out, expected);
}

#[test]
fn pool_large_counts_kept_exact() {
    let one = source(
        "hugepages-2048kB",
        "18446744073709551615\n",
        "18446744073709551615\n",
    );
    let entry = pool_entry_from_source(&one).unwrap();
    assert_eq!(entry, PoolEntry { size_kb: 2048, free: u64::MAX, total: u64::MAX });
    assert_eq!(pool_summary(&entry), "2Mi - 18446744073709551615/18446744073709551615");
}

#[test]
fn dir_name_overflowing_size_rejected() {
    let one = source("hugepages-18446744073709551616kB", "1\n", "1\n");
    assert_eq!(pool_entry_from_source(&one), Err(PoolError::BadDirName));
}

#[test]
fn wide_columns_are_not_truncated() {
    let entries = vec![mapping(2048, 1234567890123, 7)];
    let report = aggregate_process(4294967295, "a-rather-long-process-name".to_string(), entries)
        .unwrap();
    let out = format_process_str(&vec![report]);
    let lines: Vec<&str> = out.lines().collect();
    assert_eq!(
        lines[1],
        format!(
            "{:<8} {:<12} {:<12} {:<12}",
            4294967295u32, 1234567890123u64, 7, "a-rather-long-process-name"
        )
    );
}

#[test]
fn whole_report_end_to_end() {
    let sources = vec![source("hugepages-2048kB", "100\n", "40\n")];
    let pools = pool_entries_from_sources(&sources).unwrap();
    let text = "7f000000-7f200000 rw-s 00000000 00:0f 77 /anon_hugepage\n\
                KernelPageSize:     2048 kB\n\
                Private_Hugetlb:    4096 kB\n\
                Shared_Hugetlb:        0 kB\n";
    let report = build_process_report(7, "Name:\thog\n", text).unwrap();
    let out = construct_str("12:00:00", "up 1 min", "1 user", &pools, &vec![report]);
    let mut expected = String::from("top - 12:00:00 up 1 min, 1 user, 2Mi - 40/100\n");
    expected.push_str(&format!(
        "{:<8} {:<12} {:<12} {:<12}\n",
        "PID", "Private", "Shared", "Process"
    ));
    expected.push_str(&format!("{:<8} {:<12} {:<12} {:<12}\n", 7, 4096, 0, "hog"));
    assert_eq!(out, expected);
}
