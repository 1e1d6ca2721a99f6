use dirlist::entry::EntryKind;
use dirlist::listing::Line;
use dirlist::text::render_line;

#[test]
fn entry_line_text_with_color() {
    colored::control::set_override(true);
    let f = Line::Entry { indent: 0, kind: EntryKind::File, name: "a.txt".to_string(), size: 10 };
    assert_eq!(
        render_line(&f),
        "\u{1f4c4} \u{1b}[32ma.txt\u{1b}[0m\u{1b}[37m (10 bytes)\u{1b}[0m"
    );
    let d = Line::Entry { indent: 1, kind: EntryKind::Directory, name: "sub".to_string(), size: 0 };
    assert_eq!(
        render_line(&d),
        "  \u{1f4c1} \u{1b}[34msub\u{1b}[0m\u{1b}[37m (0 bytes)\u{1b}[0m"
    );
    let o = Line::Entry { indent: 0, kind: EntryKind::Other, name: "lnk".to_string(), size: 3 };
    assert_eq!(
        render_line(&o),
        "\u{1f517} \u{1b}[33mlnk\u{1b}[0m\u{1b}[37m (3 bytes)\u{1b}[0m"
    );
}
