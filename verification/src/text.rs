//! Turning lines into printable text: indentation, icons, the decimal
//! size annotation, and terminal colors.

use vstd::prelude::*;
use vstd::string::StringExecFns;
use crate::entry::EntryKind;
use crate::listing::{Line, LineModel};

verus! {

/// Foreground colors the listing uses.
#[derive(Clone, Copy, PartialEq, Eq, Structural, Debug)]
pub enum TextColor {
    Blue,
    Green,
    Yellow,
    White,
}

/// The ANSI code of each color, as the escape prefix holds it.
pub open spec fn color_code(c: TextColor) -> Seq<char> {
    match c {
        TextColor::Blue => "34"@,
        TextColor::Green => "32"@,
        TextColor::Yellow => "33"@,
        TextColor::White => "37"@,
    }
}

/// How colored text relates to its plain input: either the terminal
/// takes no color and the text is unchanged, or it is wrapped in the
/// ANSI escape prefix of the color and the reset suffix.  When the
/// input itself holds no escape character its body is unchanged too.
pub open spec fn colored_as(out: Seq<char>, inp: Seq<char>, c: TextColor) -> bool {
    ||| out == inp
    ||| exists|body: Seq<char>|
        {
            &&& body.len() >= inp.len()
            &&& (!inp.contains('\u{1b}') ==> body == inp)
            &&& out == "\u{1b}["@ + color_code(c) + "m"@ + body + "\u{1b}[0m"@
        }
}

/// Relies on colored's `Colorize::color` for `&str` and the `Display`
/// impl of `ColoredString`: with colors off the input is written as it
/// is; with colors on it is written between the color's ANSI escape
/// prefix and the reset suffix, with inner reset sequences re-escaped
/// (which only inserts characters, and changes nothing when the input
/// has no escape character).  Whether colors are on depends on the
/// terminal and environment alone.
#[verifier::external_body]
fn paint(s: &str, c: TextColor) -> (r: String)
    ensures
        colored_as(r@, s@, c),
{
    let cc = match c {
        TextColor::Blue => colored::Color::Blue,
        TextColor::Green => colored::Color::Green,
        TextColor::Yellow => colored::Color::Yellow,
        TextColor::White => colored::Color::White,
    };
    format!("{}", colored::Colorize::color(s, cc))
}

/// The icon shown before a name, with its trailing space.
pub open spec fn icon_text(k: EntryKind) -> Seq<char> {
    match k {
        EntryKind::Directory => "\u{1f4c1} "@,
        EntryKind::File => "\u{1f4c4} "@,
        EntryKind::Other => "\u{1f517} "@,
    }
}

/// The color a kind of entry is shown in: directories blue, files
/// green, others yellow.
pub open spec fn kind_color(k: EntryKind) -> TextColor {
    match k {
        EntryKind::Directory => TextColor::Blue,
        EntryKind::File => TextColor::Green,
        EntryKind::Other => TextColor::Yellow,
    }
}

/// The icon of a kind of entry.
fn icon_str(k: EntryKind) -> (r: &'static str)
    ensures
        r@ == icon_text(k),
{
    match k {
        EntryKind::Directory => "\u{1f4c1} ",
        EntryKind::File => "\u{1f4c4} ",
        EntryKind::Other => "\u{1f517} ",
    }
}

/// Two spaces per indent level.
pub open spec fn indent_text(level: int) -> Seq<char>
    decreases level,
{
    if level <= 0 {
        Seq::empty()
    } else {
        indent_text(level - 1) + "  "@
    }
}

/// Builds the indentation of a level.
fn indent_str(level: usize) -> (r: String)
    ensures
        r@ == indent_text(level as int),
{
    let mut r = String::new();
    let mut i: usize = 0;
    while i < level
        invariant
            i <= level,
            r@ == indent_text(i as int),
        decreases level - i,
    {
        r.append("  ");
        i += 1;
    }
    r
}

/// The decimal digits of a number, most significant first.
pub open spec fn decimal(n: nat) -> Seq<char>
    decreases n,
{
    if n < 10 {
        seq![digit_char(n)]
    } else {
        decimal(n / 10).push(digit_char(n % 10))
    }
}

/// The character of one decimal digit.
pub open spec fn digit_char(d: nat) -> char {
    if d == 0 {
        '0'
    } else if d == 1 {
        '1'
    } else if d == 2 {
        '2'
    } else if d == 3 {
        '3'
    } else if d == 4 {
        '4'
    } else if d == 5 {
        '5'
    } else if d == 6 {
        '6'
    } else if d == 7 {
        '7'
    } else if d == 8 {
        '8'
    } else {
        '9'
    }
}

/// The string of one decimal digit.
fn digit_str(d: u64) -> (r: &'static str)
    requires
        d < 10,
    ensures
        r@ == seq![digit_char(d as nat)],
{
    proof {
        reveal_strlit("0");
        reveal_strlit("1");
        reveal_strlit("2");
        reveal_strlit("3");
        reveal_strlit("4");
        reveal_strlit("5");
        reveal_strlit("6");
        reveal_strlit("7");
        reveal_strlit("8");
        reveal_strlit("9");
        assert("0"@ =~= seq!['0']);
        assert("1"@ =~= seq!['1']);
        assert("2"@ =~= seq!['2']);
        assert("3"@ =~= seq!['3']);
        assert("4"@ =~= seq!['4']);
        assert("5"@ =~= seq!['5']);
        assert("6"@ =~= seq!['6']);
        assert("7"@ =~= seq!['7']);
        assert("8"@ =~= seq!['8']);
        assert("9"@ =~= seq!['9']);
    }
    if d == 0 {
        "0"
    } else if d == 1 {
        "1"
    } else if d == 2 {
        "2"
    } else if d == 3 {
        "3"
    } else if d == 4 {
        "4"
    } else if d == 5 {
        "5"
    } else if d == 6 {
        "6"
    } else if d == 7 {
        "7"
    } else if d == 8 {
        "8"
    } else {
        "9"
    }
}

/// Writes a number in decimal.
pub fn u64_to_decimal(n: u64) -> (r: String)
    ensures
        r@ == decimal(n as nat),
    decreases n,
{
    if n < 10 {
        String::from_str(digit_str(n))
    } else {
        let mut r = u64_to_decimal(n / 10);
        r.append(digit_str(n % 10));
        proof {
            assert(decimal((n / 10) as nat).push(digit_char((n % 10) as nat)) =~= decimal(
                (n / 10) as nat,
            ) + seq![digit_char((n % 10) as nat)]);
        }
        r
    }
}

/// The size annotation printed after a name.
pub open spec fn size_annotation(size: nat) -> Seq<char> {
    " ("@ + decimal(size) + " bytes)"@
}

/// What the printed text of a line must look like.  A header renders
/// exactly as a blank line, the indentation and the header text; an
/// entry line renders as the indentation, the kind's icon, the name in
/// the kind's color and the size annotation in white.
pub open spec fn line_rendered(l: LineModel, out: Seq<char>) -> bool {
    match l {
        LineModel::Header { indent, name } => out == "\n"@ + indent_text(indent)
            + "Subdirectory: "@ + name,
        LineModel::Entry { indent, kind, name, size } => entry_line_rendered(
            indent,
            kind,
            name,
            size,
            out,
        ),
    }
}

/// What the printed text of an entry line must look like.
pub open spec fn entry_line_rendered(
    indent: int,
    kind: EntryKind,
    name: Seq<char>,
    size: int,
    out: Seq<char>,
) -> bool {
    exists|cn: Seq<char>, cs: Seq<char>|
        {
            &&& colored_as(cn, name, kind_color(kind))
            &&& colored_as(cs, size_annotation(size as nat), TextColor::White)
            &&& out == indent_text(indent) + icon_text(kind) + cn + cs
        }
}

proof fn lemma_entry_line_rendered(
    indent: int,
    kind: EntryKind,
    name: Seq<char>,
    size: int,
    cn: Seq<char>,
    cs: Seq<char>,
    out: Seq<char>,
)
    requires
        colored_as(cn, name, kind_color(kind)),
        colored_as(cs, size_annotation(size as nat), TextColor::White),
        out == indent_text(indent) + icon_text(kind) + cn + cs,
    ensures
        line_rendered(LineModel::Entry { indent, kind, name, size }, out),
{
    assert(exists|cn2: Seq<char>, cs2: Seq<char>|
        {
            &&& colored_as(cn2, name, kind_color(kind))
            &&& colored_as(cs2, size_annotation(size as nat), TextColor::White)
            &&& out == indent_text(indent) + icon_text(kind) + cn2 + cs2
        });
    assert(entry_line_rendered(indent, kind, name, size, out));
}

/// Renders one line of the listing as the text to print.
pub fn render_line(l: &Line) -> (r: String)
    ensures
        line_rendered(l@, r@),
{
    match l {
        Line::Header { indent, name } => {
            let mut r = String::from_str("\n");
            r.append(indent_str(*indent).as_str());
            r.append("Subdirectory: ");
            r.append(name.as_str());
            proof {
                assert(r@ == "\n"@ + indent_text(*indent as int) + "Subdirectory: "@ + name@);
            }
            r
        },
        Line::Entry { indent, kind, name, size } => {
            let colored_name = paint(name.as_str(), kind_color_exec(*kind));
            let mut ann = String::from_str(" (");
            ann.append(u64_to_decimal(*size).as_str());
            ann.append(" bytes)");
            let colored_ann = paint(ann.as_str(), TextColor::White);
            let mut r = indent_str(*indent);
            r.append(icon_str(*kind));
            r.append(colored_name.as_str());
            r.append(colored_ann.as_str());
            proof {
                assert(ann@ == size_annotation(*size as nat));
                assert(colored_as(colored_name@, name@, kind_color(*kind)));
                assert(colored_as(colored_ann@, size_annotation(*size as nat), TextColor::White));
                assert(r@ == indent_text(*indent as int) + icon_text(*kind) + colored_name@
                    + colored_ann@);
                assert(l@ == (LineModel::Entry {
                    indent: *indent as int,
                    kind: *kind,
                    name: name@,
                    size: *size as int,
                }));
                lemma_entry_line_rendered(
                    *indent as int,
                    *kind,
                    name@,
                    *size as int,
                    colored_name@,
                    colored_ann@,
                    r@,
                );
                assert(line_rendered(l@, r@));
            }
            r
        },
    }
}

/// The color a kind of entry is shown in.
fn kind_color_exec(k: EntryKind) -> (r: TextColor)
    ensures
        r == kind_color(k),
{
    match k {
        EntryKind::Directory => TextColor::Blue,
        EntryKind::File => TextColor::Green,
        EntryKind::Other => TextColor::Yellow,
    }
}

} // verus!
