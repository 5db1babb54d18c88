//! Settings: the tree of configuration values the table logic reads, where the
//! settings come from, and how alignment and colour names in them are read.

use vstd::prelude::*;
use vstd::string::*;
use crate::text::{ascii_lowercase, chars_of, lower_char, lower_seq, str_eq, to_lower_char};

verus! {

/// The shape of one configuration value.
pub enum ConfKind {
    /// An explicit empty value.
    Nil,
    /// A boolean, number or string: it reads as the text of its node.
    Scalar,
    /// A table of named values; a name is looked up as its first entry.
    Table(Vec<(String, ConfNode)>),
    /// A list of values.
    Array(Vec<ConfNode>),
}

/// One configuration value together with the text it displays as.
pub struct ConfNode {
    /// How the value is written out when shown as text.
    pub shown: String,
    pub kind: ConfKind,
}

/// Where the settings are read from: the file names to try, in order (the
/// loader finds each one's extension, and the first that exists is read),
/// and the prefix of the environment variables that override it.
pub struct ConfigSource {
    pub files: Vec<String>,
    pub env_prefix: String,
}

/// How a cell's text is aligned.
#[derive(Clone, Copy, Debug, PartialEq, Eq, Structural)]
pub enum CellAlignment {
    Left,
    Center,
    Right,
}

/// A terminal text colour.
#[derive(Clone, Copy, Debug, PartialEq, Eq, Structural)]
pub enum Color {
    White,
    Green,
    Red,
    Yellow,
    Rgb { r: u8, g: u8, b: u8 },
}

/// The value stored under `key` in a table: the first entry with that name.
pub open spec fn entry_lookup(t: Seq<(String, ConfNode)>, key: Seq<char>) -> Option<ConfNode>
    decreases t.len(),
{
    if t.len() == 0 {
        None
    } else if t[0].0@ == key {
        Some(t[0].1)
    } else {
        entry_lookup(t.drop_first(), key)
    }
}

/// The entries of a table value; nothing for any other value.
pub open spec fn node_table(n: ConfNode) -> Option<Seq<(String, ConfNode)>> {
    match n.kind {
        ConfKind::Table(t) => Some(t@),
        _ => None,
    }
}

/// The value read as a string: scalars give their text, other values give nothing.
pub open spec fn node_str(n: ConfNode) -> Option<Seq<char>> {
    match n.kind {
        ConfKind::Scalar => Some(n.shown@),
        _ => None,
    }
}

/// Whether every item of a list reads as a string.
pub open spec fn all_scalars(items: Seq<ConfNode>) -> bool {
    forall|i: int| 0 <= i < items.len() ==> (#[trigger] items[i]).kind is Scalar
}

/// The value read as a list of strings: a list whose items are all scalars.
pub open spec fn node_strings(n: ConfNode) -> Option<Seq<Seq<char>>> {
    match n.kind {
        ConfKind::Array(items) => if all_scalars(items@) {
            Some(items@.map_values(|x: ConfNode| x.shown@))
        } else {
            None
        },
        _ => None,
    }
}

/// The value under `key` of a table value; nothing for other values.
pub open spec fn node_child(n: ConfNode, key: Seq<char>) -> Option<ConfNode> {
    match node_table(n) {
        Some(t) => entry_lookup(t, key),
        None => None,
    }
}

/// The value under `key` in the table `t`.
pub fn table_get<'a>(t: &'a Vec<(String, ConfNode)>, key: &str) -> (r: Option<&'a ConfNode>)
    ensures
        r is None <==> entry_lookup(t@, key@) is None,
        r matches Some(n) ==> entry_lookup(t@, key@) == Some(*n),
{
    let mut i: usize = 0;
    assert(t@.skip(0) =~= t@);
    while i < t.len()
        invariant
            i <= t.len(),
            entry_lookup(t@, key@) == entry_lookup(t@.skip(i as int), key@),
        decreases t.len() - i,
    {
        if str_eq(t[i].0.as_str(), key) {
            return Some(&t[i].1);
        }
        assert(t@.skip(i as int).drop_first() =~= t@.skip(i + 1));
        i = i + 1;
    }
    None
}

/// The entries of a table value.
pub fn as_table(n: &ConfNode) -> (r: Option<&Vec<(String, ConfNode)>>)
    ensures
        r is None <==> node_table(*n) is None,
        r matches Some(t) ==> node_table(*n) == Some(t@),
{
    match &n.kind {
        ConfKind::Table(t) => Some(t),
        _ => None,
    }
}

/// The value under `key` of a table value; nothing when `n` is no table or has no such entry.
pub fn node_get<'a>(n: &'a ConfNode, key: &str) -> (r: Option<&'a ConfNode>)
    ensures
        r is None <==> node_child(*n, key@) is None,
        r matches Some(c) ==> node_child(*n, key@) == Some(*c),
{
    match as_table(n) {
        Some(t) => table_get(t, key),
        None => None,
    }
}

/// The value read as a list of strings.
pub fn strings_of(n: &ConfNode) -> (r: Option<Vec<String>>)
    ensures
        r is None <==> node_strings(*n) is None,
        r matches Some(v) ==> node_strings(*n) == Some(v@.map_values(|s: String| s@)),
{
    match &n.kind {
        ConfKind::Array(items) => {
            let mut out: Vec<String> = Vec::new();
            for i in 0..items.len()
                invariant
                    node_strings(*n) is None <==> !all_scalars(items@),
                    all_scalars(items@.subrange(0, i as int)),
                    out@.map_values(|s: String| s@) =~= items@.subrange(0, i as int).map_values(
                        |x: ConfNode| x.shown@,
                    ),
            {
                match &items[i].kind {
                    ConfKind::Scalar => {
                        out.push(items[i].shown.clone());
                        assert(items@.subrange(0, i + 1).map_values(|x: ConfNode| x.shown@)
                            =~= items@.subrange(0, i as int).map_values(|x: ConfNode| x.shown@).push(
                            items@[i as int].shown@,
                        ));
                        assert(out@.map_values(|s: String| s@) =~= items@.subrange(
                            0,
                            i as int,
                        ).map_values(|x: ConfNode| x.shown@).push(items@[i as int].shown@));
                        assert(all_scalars(items@.subrange(0, i + 1))) by {
                            assert forall|j: int| 0 <= j < i + 1 implies (#[trigger] items@.subrange(
                                0,
                                i + 1,
                            )[j]).kind is Scalar by {
                                if j < i {
                                    assert(items@.subrange(0, i + 1)[j] == items@.subrange(
                                        0,
                                        i as int,
                                    )[j]);
                                }
                            }
                        }
                    },
                    _ => {
                        let ghost bad = items@[i as int];
                        assert(!(bad.kind is Scalar));
                        assert(!all_scalars(items@));
                        return None;
                    },
                }
            }
            assert(items@.subrange(0, items.len() as int) =~= items@);
            Some(out)
        },
        _ => None,
    }
}

/// Alignment named by a text: its first letter, in either case, `c` for centre,
/// `r` for right; anything else, the empty text included, means left.
pub open spec fn align_of_text(s: Seq<char>) -> CellAlignment {
    if s.len() == 0 {
        CellAlignment::Left
    } else if lower_char(s[0]) == 'c' {
        CellAlignment::Center
    } else if lower_char(s[0]) == 'r' {
        CellAlignment::Right
    } else {
        CellAlignment::Left
    }
}

/// Reads an alignment setting ("left", "center", "right" or any word starting
/// with their first letter).
pub fn parse_align(arg1: &str) -> (r: CellAlignment)
    ensures
        r == align_of_text(arg1@),
{
    if arg1.unicode_len() == 0 {
        return CellAlignment::Left;
    }
    let c = to_lower_char(arg1.get_char(0));
    if c == 'c' {
        CellAlignment::Center
    } else if c == 'r' {
        CellAlignment::Right
    } else {
        CellAlignment::Left
    }
}

/// The value of a hexadecimal digit character.
pub open spec fn hex_value(c: char) -> Option<u8> {
    if '0' <= c && c <= '9' {
        Some(((c as u32) - 48) as u8)
    } else if 'a' <= c && c <= 'f' {
        Some(((c as u32) - 87) as u8)
    } else if 'A' <= c && c <= 'F' {
        Some(((c as u32) - 55) as u8)
    } else {
        None
    }
}

/// A byte written as two characters in base 16, as `u8::from_str_radix(_, 16)`
/// reads it: two digits, or a `+` sign and one digit.
pub open spec fn hex_pair(c0: char, c1: char) -> Option<u8> {
    match (hex_value(c0), hex_value(c1)) {
        (Some(h), Some(l)) => Some((h * 16 + l) as u8),
        (None, Some(l)) => if c0 == '+' { Some(l) } else { None },
        _ => None,
    }
}

/// The colour that a hex code such as `#FF8800` or `ff8800` gives, as `tint`
/// reads it: an optional `#`, then three bytes of two characters each; what
/// follows them is ignored.
pub open spec fn hex_rgb(s: Seq<char>) -> Option<(u8, u8, u8)> {
    if s.len() == 0 {
        None
    } else {
        let n: int = if s[0] == '#' { 1 } else { 0 };
        if s.len() < n + 6 {
            None
        } else {
            match (hex_pair(s[n], s[n + 1]), hex_pair(s[n + 2], s[n + 3]), hex_pair(s[n + 4], s[n + 5])) {
                (Some(r), Some(g), Some(b)) => Some((r, g, b)),
                _ => None,
            }
        }
    }
}

/// Names the colour of a name in `tint`'s built-in table of the W3C basic
/// and extended colour names (lower case), as its 0-255 red, green and blue
/// parts (`tint::Color::to_rgb255`); nothing for a name outside that table.
pub uninterp spec fn w3c_color_rgb(name: Seq<char>) -> Option<(u8, u8, u8)>;

/// Looks a colour name up with `tint::Color::name` and gives its parts as
/// `tint::Color::to_rgb255` computes them. `tint`'s table starts with the W3C
/// basic and extended colours, and loading more names (`tint::xkcd`,
/// `tint::load_rgb_file`) never replaces those, so for them the answer is
/// stated. Any code in the process may add other names to the table, so
/// nothing is stated of the answer for a name outside the W3C table.
#[verifier::external_body]
fn named_color_rgb(name: &str) -> (r: Option<(u8, u8, u8)>)
    ensures
        w3c_color_rgb(name@) is Some ==> r == w3c_color_rgb(name@),
{
    match tint::Color::name(name) {
        Some(c) => Some(c.to_rgb255()),
        None => None,
    }
}

/// Whether `a` can be what the colour-name lookup of the tint setting `s`
/// (in lower case) gives: the W3C colour whenever `s` names one.
pub open spec fn name_answer_fits(s: Seq<char>, a: Option<(u8, u8, u8)>) -> bool {
    w3c_color_rgb(lower_seq(s)) is Some ==> a == w3c_color_rgb(lower_seq(s))
}

/// The red, green and blue parts of a tint setting whose colour-name lookup
/// gave `a`: that colour, else the hex code the setting spells, else white.
pub open spec fn tint_rgb(s: Seq<char>, a: Option<(u8, u8, u8)>) -> (u8, u8, u8) {
    match a {
        Some(c) => c,
        None => match hex_rgb(s) {
            Some(c) => c,
            None => (255u8, 255u8, 255u8),
        },
    }
}

/// The colour of a tint setting whose colour-name lookup gave `a`; pure white
/// is the terminal's white.
pub open spec fn tint_of_text(s: Seq<char>, a: Option<(u8, u8, u8)>) -> Color {
    let (r, g, b) = tint_rgb(s, a);
    if r == 255 && g == 255 && b == 255 {
        Color::White
    } else {
        Color::Rgb { r, g, b }
    }
}

/// A tint setting that names no colour and spells no hex code is white.
pub proof fn law_unknown_tint_is_white(s: Seq<char>, a: Option<(u8, u8, u8)>)
    requires
        a is None,
        hex_rgb(s) is None,
    ensures
        tint_of_text(s, a) == Color::White,
{
}

/// A tint keeps the exact colour it names or spells: parts other than pure
/// white (255, 255, 255) come out as that RGB colour, parts and all, and only
/// pure white becomes the terminal's white.
pub proof fn law_tint_keeps_colour_parts(s: Seq<char>, a: Option<(u8, u8, u8)>, r: u8, g: u8, b: u8)
    requires
        a == Some((r, g, b)) || (a is None && hex_rgb(s) == Some((r, g, b))),
    ensures
        !(r == 255 && g == 255 && b == 255) ==> tint_of_text(s, a) == (Color::Rgb { r, g, b }),
        (r == 255 && g == 255 && b == 255) ==> tint_of_text(s, a) == Color::White,
{
}

/// Colour names are read in any letter case: two settings that differ only
/// in the case of a W3C colour name give the same colour.
pub proof fn law_tint_names_ignore_case(
    s1: Seq<char>,
    s2: Seq<char>,
    a1: Option<(u8, u8, u8)>,
    a2: Option<(u8, u8, u8)>,
)
    requires
        lower_seq(s1) == lower_seq(s2),
        w3c_color_rgb(lower_seq(s1)) is Some,
        name_answer_fits(s1, a1),
        name_answer_fits(s2, a2),
    ensures
        tint_of_text(s1, a1) == tint_of_text(s2, a2),
{
}

/// The value of a hexadecimal digit character.
fn hex_digit(c: char) -> (r: Option<u8>)
    ensures
        r == hex_value(c),
{
    if '0' <= c && c <= '9' {
        Some((c as u8) - 48)
    } else if 'a' <= c && c <= 'f' {
        Some((c as u8) - 87)
    } else if 'A' <= c && c <= 'F' {
        Some((c as u8) - 55)
    } else {
        None
    }
}

/// A byte written as two base-16 characters.
fn parse_hex_pair(c0: char, c1: char) -> (r: Option<u8>)
    ensures
        r == hex_pair(c0, c1),
{
    match (hex_digit(c0), hex_digit(c1)) {
        (Some(h), Some(l)) => Some(h * 16 + l),
        (None, Some(l)) => if c0 == '+' { Some(l) } else { None },
        _ => None,
    }
}

/// The colour of a hex code.
pub fn parse_hex_rgb(s: &str) -> (r: Option<(u8, u8, u8)>)
    ensures
        r == hex_rgb(s@),
{
    let cs = chars_of(s);
    if cs.len() == 0 {
        return None;
    }
    let n: usize = if cs[0] == '#' { 1 } else { 0 };
    if cs.len() < n + 6 {
        return None;
    }
    match (parse_hex_pair(cs[n], cs[n + 1]), parse_hex_pair(cs[n + 2], cs[n + 3]), parse_hex_pair(cs[n + 4], cs[n + 5])) {
        (Some(r), Some(g), Some(b)) => Some((r, g, b)),
        _ => None,
    }
}

/// The colour-name lookup of a tint setting, in lower case.
pub fn lookup_tint_name(arg1: &String) -> (a: Option<(u8, u8, u8)>)
    ensures
        name_answer_fits(arg1@, a),
{
    let lower = ascii_lowercase(arg1.as_str());
    named_color_rgb(lower.as_str())
}

/// The colour of a tint setting, given what its colour-name lookup gave.
pub fn tint_from_lookup(arg1: &String, looked: Option<(u8, u8, u8)>) -> (r: Color)
    ensures
        r == tint_of_text(arg1@, looked),
{
    let rgb = match looked {
        Some(c) => c,
        None => match parse_hex_rgb(arg1.as_str()) {
            Some(c) => c,
            None => (255u8, 255u8, 255u8),
        },
    };
    let (r, g, b) = rgb;
    if r == 255 && g == 255 && b == 255 {
        Color::White
    } else {
        Color::Rgb { r, g, b }
    }
}

/// Reads a tint setting: a colour name (in any letter case), a hex code
/// (`#RRGGBB` or `RRGGBB`), and white for anything else. The colour also
/// comes back with the lookup's answer, for callers that state it.
pub fn tint_traced(arg1: &String) -> (r: (Color, Option<(u8, u8, u8)>))
    ensures
        name_answer_fits(arg1@, r.1),
        r.0 == tint_of_text(arg1@, r.1),
{
    let a = lookup_tint_name(arg1);
    (tint_from_lookup(arg1, a), a)
}

/// Reads a tint setting: a colour name (in any letter case), a hex code
/// (`#RRGGBB` or `RRGGBB`), and white for anything else.
pub fn parse_tint(arg1: &String) -> (r: Color)
    ensures
        exists|a: Option<(u8, u8, u8)>| name_answer_fits(arg1@, a) && r == tint_of_text(arg1@, a),
{
    let (c, a) = tint_traced(arg1);
    assert(name_answer_fits(arg1@, a) && c == tint_of_text(arg1@, a));
    c
}

/// The settings files to try: the one given on the command line; else
/// `coinprs` in the current directory, then in the home directory, then in
/// its `.config` directory.
pub open spec fn config_files(config_arg: Option<Seq<char>>, home: Option<Seq<char>>) -> Seq<Seq<char>> {
    match config_arg {
        Some(p) => seq![p],
        None => match home {
            Some(h) => seq!["coinprs"@, h + "/coinprs"@, h + "/.config/coinprs"@],
            None => seq!["coinprs"@],
        },
    }
}

/// Where the settings are read from: the file given on the command line, else
/// a file named `coinprs` in the current directory, the home directory `home`
/// or its `.config` directory; variables prefixed `APP` override it.
pub fn get_config(config_arg: Option<&str>, home: Option<&str>) -> (r: ConfigSource)
    ensures
        r.files@.map_values(|f: String| f@) == config_files(
            match config_arg {
                Some(p) => Some(p@),
                None => None,
            },
            match home {
                Some(h) => Some(h@),
                None => None,
            },
        ),
        r.env_prefix@ == "APP"@,
{
    let mut files: Vec<String> = Vec::new();
    match config_arg {
        Some(p) => {
            files.push(p.to_owned());
        },
        None => {
            files.push("coinprs".to_owned());
            match home {
                Some(h) => {
                    let in_home: String = h.to_owned().concat("/coinprs");
                    let in_config: String = h.to_owned().concat("/.config/coinprs");
                    files.push(in_home);
                    files.push(in_config);
                },
                None => {},
            }
        },
    }
    proof {
        let v = files@.map_values(|f: String| f@);
        let want = config_files(
            match config_arg {
                Some(p) => Some(p@),
                None => None,
            },
            match home {
                Some(h) => Some(h@),
                None => None,
            },
        );
        assert(v =~= want);
    }
    ConfigSource { files, env_prefix: "APP".to_owned() }
}

} // verus!
