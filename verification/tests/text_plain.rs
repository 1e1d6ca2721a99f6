use dirlist::entry::EntryKind;
use dirlist::listing::Line;
use dirlist::text::{render_line, u64_to_decimal};

#[test]
fn decimal_formatting_exact() {
    assert_eq!(u64_to_decimal(0), "0");
    assert_eq!(u64_to_decimal(7), "7");
    assert_eq!(u64_to_decimal(10), "10");
    assert_eq!(u64_to_decimal(105), "105");
    assert_eq!(u64_to_decimal(u64::MAX), "18446744073709551615");
}

#[test]
fn header_line_text() {
    colored::control::set_override(false);
    let l = Line::Header { indent: 1, name: "sub".to_string() };
    assert_eq!(render_line(&l), "\n  Subdirectory: sub");
    let top = Line::Header { indent: 0, name: "x".to_string() };
    assert_eq!(render_line(&top), "\nSubdirectory: x");
}

#[test]
fn entry_line_text_without_color() {
    colored::control::set_override(false);
    let f = Line::Entry { indent: 0, kind: EntryKind::File, name: "a.txt".to_string(), size: 10 };
    assert_eq!(render_line(&f), "\u{1f4c4} a.txt (10 bytes)");
    let d = Line::Entry { indent: 2, kind: EntryKind::Directory, name: "sub".to_string(), size: 0 };
    assert_eq!(render_line(&d), "    \u{1f4c1} sub (0 bytes)");
    let o = Line::Entry { indent: 1, kind: EntryKind::Other, name: "lnk".to_string(), size: 3 };
    assert_eq!(render_line(&o), "  \u{1f517} lnk (3 bytes)");
}
