use dirlist::entry::{EntryKind, FsEntry, forest_node_count, name_is_hidden, should_descend};
use dirlist::listing::Line;
use dirlist::options::{Opts, parse_args};
use dirlist::order::{SortKey, sort_entries};
use dirlist::render::{partition, render};

fn entry(name: &str, size: u64, modified: u64, kind: EntryKind) -> FsEntry {
    FsEntry { name: name.to_string(), size, modified, kind, children: Vec::new() }
}

fn dir_with(name: &str, size: u64, modified: u64, children: Vec<FsEntry>) -> FsEntry {
    FsEntry { name: name.to_string(), size, modified, kind: EntryKind::Directory, children }
}

fn opts() -> Opts {
    Opts {
        group_dirs_first: false,
        recursive: false,
        sort_by_name: false,
        sort_by_size: false,
        sort_by_date: false,
        filter_files: false,
        filter_dirs: false,
    }
}

fn expect_entry(line: &Line, indent: usize, kind: EntryKind, name: &str, size: u64) {
    match line {
        Line::Entry { indent: i, kind: k, name: n, size: s } => {
            assert_eq!(*i, indent);
            assert_eq!(*k, kind);
            assert_eq!(n, name);
            assert_eq!(*s, size);
        }
        Line::Header { .. } => panic!("expected an entry line, found a header"),
    }
}

fn expect_header(line: &Line, indent: usize, name: &str) {
    match line {
        Line::Header { indent: i, name: n } => {
            assert_eq!(*i, indent);
            assert_eq!(n, name);
        }
        Line::Entry { .. } => panic!("expected a header, found an entry line"),
    }
}

#[test]
fn hidden_names() {
    assert!(name_is_hidden(&".git".to_string()));
    assert!(name_is_hidden(&".".to_string()));
    assert!(!name_is_hidden(&"src".to_string()));
    assert!(!name_is_hidden(&"".to_string()));
    assert!(!name_is_hidden(&"a.txt".to_string()));
}

#[test]
fn hidden_entries_never_listed() {
    let entries = vec![
        entry(".hidden", 1, 0, EntryKind::File),
        entry("seen.txt", 2, 0, EntryKind::File),
        dir_with(".git", 0, 0, vec![entry("inner.txt", 3, 0, EntryKind::File)]),
        entry(".lnk", 4, 0, EntryKind::Other),
    ];
    let mut o = opts();
    o.recursive = true;
    let lines = render(entries, &o, 0);
    assert_eq!(lines.len(), 1);
    expect_entry(&lines[0], 0, EntryKind::File, "seen.txt", 2);
}

#[test]
fn partition_buckets_by_kind_in_order() {
    let entries = vec![
        entry("b", 1, 0, EntryKind::File),
        entry("d1", 0, 0, EntryKind::Directory),
        entry("l", 2, 0, EntryKind::Other),
        entry(".skip", 9, 0, EntryKind::File),
        entry("a", 3, 0, EntryKind::File),
    ];
    let (dirs, files, others) = partition(entries);
    assert_eq!(dirs.len(), 1);
    assert_eq!(dirs[0].name, "d1");
    assert_eq!(files.len(), 2);
    assert_eq!(files[0].name, "b");
    assert_eq!(files[1].name, "a");
    assert_eq!(others.len(), 1);
    assert_eq!(others[0].name, "l");
}

#[test]
fn sort_by_name_is_lexicographic() {
    let v = vec![
        entry("pear", 5, 0, EntryKind::File),
        entry("apple", 9, 0, EntryKind::File),
        entry("banana", 1, 0, EntryKind::File),
    ];
    let sorted = sort_entries(v, SortKey::Name);
    let names: Vec<&str> = sorted.iter().map(|e| e.name.as_str()).collect();
    assert_eq!(names, vec!["apple", "banana", "pear"]);
}

#[test]
fn sort_by_size_is_ascending() {
    let v = vec![
        entry("big", 300, 0, EntryKind::File),
        entry("small", 1, 0, EntryKind::File),
        entry("mid", 20, 0, EntryKind::File),
    ];
    let sorted = sort_entries(v, SortKey::Size);
    let sizes: Vec<u64> = sorted.iter().map(|e| e.size).collect();
    assert_eq!(sizes, vec![1, 20, 300]);
}

#[test]
fn sort_by_date_is_chronological() {
    let v = vec![
        entry("new", 1, 300, EntryKind::File),
        entry("old", 2, 10, EntryKind::File),
        entry("mid", 3, 100, EntryKind::File),
    ];
    let sorted = sort_entries(v, SortKey::Date);
    let names: Vec<&str> = sorted.iter().map(|e| e.name.as_str()).collect();
    assert_eq!(names, vec!["old", "mid", "new"]);
}

#[test]
fn sorting_never_crosses_buckets() {
    let entries = vec![
        entry("zz", 1, 0, EntryKind::File),
        entry("aa", 2, 0, EntryKind::Directory),
        entry("mm", 3, 0, EntryKind::File),
    ];
    let mut o = opts();
    o.sort_by_name = true;
    let lines = render(entries, &o, 0);
    // files sorted among themselves, the directory stays in its bucket
    assert_eq!(lines.len(), 3);
    expect_entry(&lines[0], 0, EntryKind::File, "mm", 3);
    expect_entry(&lines[1], 0, EntryKind::File, "zz", 1);
    expect_entry(&lines[2], 0, EntryKind::Directory, "aa", 2);
}

#[test]
fn name_sort_takes_precedence_over_size_and_date() {
    let entries = vec![
        entry("b", 1, 5, EntryKind::File),
        entry("c", 2, 1, EntryKind::File),
        entry("a", 3, 9, EntryKind::File),
    ];
    let mut o = opts();
    o.sort_by_name = true;
    o.sort_by_size = true;
    o.sort_by_date = true;
    let lines = render(entries, &o, 0);
    assert_eq!(lines.len(), 3);
    expect_entry(&lines[0], 0, EntryKind::File, "a", 3);
    expect_entry(&lines[1], 0, EntryKind::File, "b", 1);
    expect_entry(&lines[2], 0, EntryKind::File, "c", 2);
}

#[test]
fn default_order_prints_sub_after_file() {
    // a directory with one file "a.txt" (10 bytes) and one
    // subdirectory "sub", default options
    let entries = vec![
        entry("a.txt", 10, 0, EntryKind::File),
        dir_with("sub", 0, 0, Vec::new()),
    ];
    let lines = render(entries, &opts(), 0);
    assert_eq!(lines.len(), 2);
    expect_entry(&lines[0], 0, EntryKind::File, "a.txt", 10);
    expect_entry(&lines[1], 0, EntryKind::Directory, "sub", 0);
}

#[test]
fn grouping_prints_sub_before_file() {
    let entries = vec![
        entry("a.txt", 10, 0, EntryKind::File),
        dir_with("sub", 0, 0, Vec::new()),
    ];
    let mut o = opts();
    o.group_dirs_first = true;
    let lines = render(entries, &o, 0);
    assert_eq!(lines.len(), 2);
    expect_entry(&lines[0], 0, EntryKind::Directory, "sub", 0);
    expect_entry(&lines[1], 0, EntryKind::File, "a.txt", 10);
}

#[test]
fn filter_files_suppresses_dir_lines_but_descends() {
    let entries = vec![
        entry("top.txt", 1, 0, EntryKind::File),
        dir_with("sub", 0, 0, vec![entry("inner.txt", 2, 0, EntryKind::File)]),
    ];
    let mut o = opts();
    o.filter_files = true;
    o.recursive = true;
    let lines = render(entries, &o, 0);
    // no directory entry line anywhere, but the subdirectory is still
    // traversed: its header and its file line are printed
    assert_eq!(lines.len(), 3);
    expect_entry(&lines[0], 0, EntryKind::File, "top.txt", 1);
    expect_header(&lines[1], 0, "sub");
    expect_entry(&lines[2], 1, EntryKind::File, "inner.txt", 2);
}

#[test]
fn filter_dirs_suppresses_file_lines_but_not_others() {
    let entries = vec![
        entry("a.txt", 1, 0, EntryKind::File),
        entry("link", 2, 0, EntryKind::Other),
        dir_with("sub", 0, 0, Vec::new()),
    ];
    let mut o = opts();
    o.filter_dirs = true;
    let lines = render(entries, &o, 0);
    assert_eq!(lines.len(), 2);
    expect_entry(&lines[0], 0, EntryKind::Other, "link", 2);
    expect_entry(&lines[1], 0, EntryKind::Directory, "sub", 0);
}

#[test]
fn others_printed_under_both_filters() {
    let entries = vec![
        entry("a.txt", 1, 0, EntryKind::File),
        entry("link", 2, 0, EntryKind::Other),
        dir_with("sub", 0, 0, Vec::new()),
    ];
    let mut o = opts();
    o.filter_dirs = true;
    o.filter_files = true;
    let lines = render(entries, &o, 0);
    assert_eq!(lines.len(), 1);
    expect_entry(&lines[0], 0, EntryKind::Other, "link", 2);
}

#[test]
fn recursive_descent_nested_three_levels() {
    // A/B/C: B under A's listed level, C under B
    let c = dir_with("c_dir", 0, 0, vec![entry("deep.txt", 7, 0, EntryKind::File)]);
    let b = dir_with("b_dir", 0, 0, vec![entry("mid.txt", 5, 0, EntryKind::File), c]);
    let entries = vec![entry("top.txt", 3, 0, EntryKind::File), b];
    let mut o = opts();
    o.recursive = true;
    let lines = render(entries, &o, 0);
    assert_eq!(lines.len(), 7);
    expect_entry(&lines[0], 0, EntryKind::File, "top.txt", 3);
    expect_entry(&lines[1], 0, EntryKind::Directory, "b_dir", 0);
    expect_header(&lines[2], 0, "b_dir");
    expect_entry(&lines[3], 1, EntryKind::File, "mid.txt", 5);
    expect_entry(&lines[4], 1, EntryKind::Directory, "c_dir", 0);
    expect_header(&lines[5], 1, "c_dir");
    expect_entry(&lines[6], 2, EntryKind::File, "deep.txt", 7);
}

#[test]
fn recursion_follows_sorted_directory_order() {
    let entries = vec![
        dir_with("zeta", 0, 0, vec![entry("z.txt", 1, 0, EntryKind::File)]),
        dir_with("alpha", 0, 0, vec![entry("a.txt", 2, 0, EntryKind::File)]),
    ];
    let mut o = opts();
    o.recursive = true;
    o.sort_by_name = true;
    let lines = render(entries, &o, 0);
    assert_eq!(lines.len(), 6);
    expect_entry(&lines[0], 0, EntryKind::Directory, "alpha", 0);
    expect_entry(&lines[1], 0, EntryKind::Directory, "zeta", 0);
    expect_header(&lines[2], 0, "alpha");
    expect_entry(&lines[3], 1, EntryKind::File, "a.txt", 2);
    expect_header(&lines[4], 0, "zeta");
    expect_entry(&lines[5], 1, EntryKind::File, "z.txt", 1);
}

#[test]
fn parse_args_reads_each_flag() {
    let args: Vec<String> = vec![
        "prog".to_string(),
        "--dir".to_string(),
        "--sort-size".to_string(),
        "--dirs".to_string(),
    ];
    let o = parse_args(&args);
    assert!(o.group_dirs_first);
    assert!(!o.recursive);
    assert!(!o.sort_by_name);
    assert!(o.sort_by_size);
    assert!(!o.sort_by_date);
    assert!(!o.filter_files);
    assert!(o.filter_dirs);
}

#[test]
fn parse_args_empty_means_defaults() {
    let args: Vec<String> = vec!["prog".to_string()];
    let o = parse_args(&args);
    assert!(!o.group_dirs_first);
    assert!(!o.recursive);
    assert!(!o.sort_by_name);
    assert!(!o.sort_by_size);
    assert!(!o.sort_by_date);
    assert!(!o.filter_files);
    assert!(!o.filter_dirs);
}

#[test]
fn node_count_counts_whole_tree() {
    let entries = vec![
        entry("a", 1, 0, EntryKind::File),
        dir_with("d", 0, 0, vec![entry("b", 2, 0, EntryKind::File)]),
    ];
    assert_eq!(forest_node_count(&entries), Some(3));
    let empty: Vec<FsEntry> = Vec::new();
    assert_eq!(forest_node_count(&empty), Some(0));
}

#[test]
fn descend_decision() {
    assert!(should_descend(EntryKind::Directory, &"sub".to_string(), true));
    assert!(!should_descend(EntryKind::Directory, &"sub".to_string(), false));
    assert!(!should_descend(EntryKind::Directory, &".git".to_string(), true));
    assert!(!should_descend(EntryKind::File, &"sub".to_string(), true));
    assert!(!should_descend(EntryKind::Other, &"sub".to_string(), true));
}
