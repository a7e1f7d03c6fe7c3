use vstd::prelude::*;

use crate::text::{
    same_chars,
    chars_of, ends_with, expand_home, has_prefix, home_expanded, lines, lines_of, lower_of, opt_view,
    split_first, split_once, starts_with, string_of, strip_prefixes, strip_suffixes, to_lower,
    trim, trimmed, views, without_prefixes, without_suffixes,
};

verus! {

/// A colour as red, green, blue and alpha, not premultiplied.
#[derive(PartialEq, Eq, Structural, Clone, Copy, Debug)]
pub struct Rgba {
    pub r: u8,
    pub g: u8,
    pub b: u8,
    pub a: u8,
}

impl Rgba {
    pub fn new(r: u8, g: u8, b: u8, a: u8) -> (c: Rgba)
        ensures
            c == (Rgba { r, g, b, a }),
    {
        Rgba { r, g, b, a }
    }
}

pub open spec fn is_hex(c: char) -> bool {
    ('0' <= c && c <= '9') || ('a' <= c && c <= 'f') || ('A' <= c && c <= 'F')
}

pub open spec fn hex_value(c: char) -> int {
    if '0' <= c && c <= '9' {
        c as int - '0' as int
    } else if 'a' <= c && c <= 'f' {
        c as int - 'a' as int + 10
    } else {
        c as int - 'A' as int + 10
    }
}

/// The byte that two characters write in hexadecimal; a leading `+` sign may
/// stand for the high digit, as in `u8::from_str_radix`.
pub open spec fn hex_byte(a: char, b: char) -> Option<u8> {
    if is_hex(a) && is_hex(b) {
        Some((hex_value(a) * 16 + hex_value(b)) as u8)
    } else if a == '+' && is_hex(b) {
        Some(hex_value(b) as u8)
    } else {
        None
    }
}

/// What lies between `rgba(` and `)`: every leading `rgba(` and trailing `)`
/// removed, then white space.
pub open spec fn rgba_digits(s: Seq<char>) -> Seq<char> {
    trim(strip_suffixes(strip_prefixes(s, "rgba("@), ")"@))
}

/// The colour that a text `rgba(rrggbbaa)` writes.
pub open spec fn rgba_value(s: Seq<char>) -> Option<Rgba> {
    let h = rgba_digits(s);
    if starts_with(s, "rgba("@) && ends_with(s, ")"@) && h.len() == 8 {
        match (hex_byte(h[0], h[1]), hex_byte(h[2], h[3]), hex_byte(h[4], h[5]), hex_byte(h[6], h[7])) {
            (Some(r), Some(g), Some(b), Some(a)) => Some(Rgba { r, g, b, a }),
            _ => None,
        }
    } else {
        None
    }
}

fn hex_digit(c: char) -> (r: Option<u8>)
    ensures
        match r {
            Some(v) => is_hex(c) && v as int == hex_value(c),
            None => !is_hex(c),
        },
{
    if '0' <= c && c <= '9' {
        Some((c as u32 - '0' as u32) as u8)
    } else if 'a' <= c && c <= 'f' {
        Some((c as u32 - 'a' as u32 + 10) as u8)
    } else if 'A' <= c && c <= 'F' {
        Some((c as u32 - 'A' as u32 + 10) as u8)
    } else {
        None
    }
}

fn parse_hex_byte(a: char, b: char) -> (r: Option<u8>)
    ensures
        r == hex_byte(a, b),
{
    match (hex_digit(a), hex_digit(b)) {
        (Some(x), Some(y)) => Some(x * 16 + y),
        (None, Some(y)) => {
            if a == '+' {
                Some(y)
            } else {
                None
            }
        },
        _ => None,
    }
}

/// The colour that a text `rgba(rrggbbaa)` writes, if it is one.
pub fn parse_rgba_color(s: &str) -> (r: Option<Rgba>)
    ensures
        r == rgba_value(s@),
{
    let text = chars_of(s);
    let open = chars_of("rgba(");
    let close = chars_of(")");
    if !has_prefix(text.as_slice(), open.as_slice()) {
        return None;
    }
    if close.len() > text.len() || !same_chars(
        crate::text::slice_of(text.as_slice(), text.len() - close.len(), text.len()).as_slice(),
        close.as_slice(),
    ) {
        return None;
    }
    let inner = without_prefixes(text.as_slice(), open.as_slice());
    let inner = without_suffixes(inner.as_slice(), close.as_slice());
    let h = trimmed(inner.as_slice());
    if h.len() != 8 {
        return None;
    }
    let r = parse_hex_byte(h[0], h[1]);
    let g = parse_hex_byte(h[2], h[3]);
    let b = parse_hex_byte(h[4], h[5]);
    let a = parse_hex_byte(h[6], h[7]);
    match (r, g, b, a) {
        (Some(r), Some(g), Some(b), Some(a)) => Some(Rgba { r, g, b, a }),
        _ => None,
    }
}

// ---------------------------------------------------------------------------
// The colour theme file: `$name = rgba(rrggbbaa)` lines
// ---------------------------------------------------------------------------

/// The name and value of a `key = value` line: the key trimmed and without
/// leading `$`, the value trimmed.
pub open spec fn assignment(l: Seq<char>) -> Option<(Seq<char>, Seq<char>)> {
    match split_once(l, '=') {
        Some((k, v)) => Some((strip_prefixes(trim(k), "$"@), trim(v))),
        None => None,
    }
}

/// The assignments of colour values, in order.
pub open spec fn color_entries(rows: Seq<Seq<char>>) -> Seq<(Seq<char>, Seq<char>)>
    decreases rows.len(),
{
    if rows.len() == 0 {
        Seq::empty()
    } else {
        let rest = color_entries(rows.drop_last());
        match assignment(rows.last()) {
            Some((k, v)) => if starts_with(v, "rgba("@) {
                rest.push((k, v))
            } else {
                rest
            },
            None => rest,
        }
    }
}

/// The value of the last entry named `key`.
pub open spec fn last_value(e: Seq<(Seq<char>, Seq<char>)>, key: Seq<char>) -> Option<Seq<char>>
    decreases e.len(),
{
    if e.len() == 0 {
        None
    } else if e.last().0 == key {
        Some(e.last().1)
    } else {
        last_value(e.drop_last(), key)
    }
}

/// The colour that the theme lines `rows` give to `key`.
pub open spec fn named_color(rows: Seq<Seq<char>>, key: Seq<char>) -> Option<Rgba> {
    match last_value(color_entries(rows), key) {
        Some(v) => rgba_value(v),
        None => None,
    }
}

/// The palette of the overlay.
#[derive(PartialEq, Eq, Structural, Clone, Copy, Debug)]
pub struct Colors {
    pub surface_container_low: Rgba,
    pub surface_container_high: Rgba,
    pub on_surface_variant: Rgba,
    pub on_primary_fixed: Rgba,
    pub primary_fixed_dim: Rgba,
    pub surface: Rgba,
    pub surface_container: Rgba,
    pub outline: Rgba,
}

/// The palette that the theme lines `rows` define, when they define every colour.
pub open spec fn theme_colors(rows: Seq<Seq<char>>) -> Option<Colors> {
    match (
        named_color(rows, "surface_container_low"@),
        named_color(rows, "surface_container_high"@),
        named_color(rows, "on_surface_variant"@),
        named_color(rows, "on_primary_fixed"@),
        named_color(rows, "primary_fixed_dim"@),
        named_color(rows, "surface"@),
        named_color(rows, "surface_container"@),
        named_color(rows, "outline"@),
    ) {
        (Some(a), Some(b), Some(c), Some(d), Some(e), Some(f), Some(g), Some(h)) => Some(
            Colors {
                surface_container_low: a,
                surface_container_high: b,
                on_surface_variant: c,
                on_primary_fixed: d,
                primary_fixed_dim: e,
                surface: f,
                surface_container: g,
                outline: h,
            },
        ),
        _ => None,
    }
}

/// The palette used when the theme file gives none.
pub open spec fn default_colors() -> Colors {
    Colors {
        surface_container_low: Rgba { r: 27, g: 27, b: 33, a: 255 },
        surface_container_high: Rgba { r: 41, g: 42, b: 47, a: 255 },
        on_surface_variant: Rgba { r: 198, g: 197, b: 208, a: 255 },
        on_primary_fixed: Rgba { r: 8, g: 22, b: 75, a: 255 },
        primary_fixed_dim: Rgba { r: 185, g: 195, b: 255, a: 255 },
        surface: Rgba { r: 18, g: 19, b: 24, a: 255 },
        surface_container: Rgba { r: 31, g: 31, b: 37, a: 255 },
        outline: Rgba { r: 144, g: 144, b: 154, a: 255 },
    }
}

/// The name and value of a `key = value` line.
fn parse_assignment(l: &[char]) -> (r: Option<(Vec<char>, Vec<char>)>)
    ensures
        match (r, assignment(l@)) {
            (Some((k, v)), Some((x, y))) => k@ == x && v@ == y,
            (None, None) => true,
            _ => false,
        },
{
    let dollar = chars_of("$");
    match split_first(l, '=') {
        Some((k, v)) => {
            let k = trimmed(k.as_slice());
            let k = without_prefixes(k.as_slice(), dollar.as_slice());
            let v = trimmed(v.as_slice());
            Some((k, v))
        },
        None => None,
    }
}

pub open spec fn entry_views(e: Seq<(Vec<char>, Vec<char>)>) -> Seq<(Seq<char>, Seq<char>)> {
    e.map_values(|p: (Vec<char>, Vec<char>)| (p.0@, p.1@))
}

/// The colour assignments of the theme text.
fn parse_color_entries(content: &str) -> (r: Vec<(Vec<char>, Vec<char>)>)
    ensures
        entry_views(r@) == color_entries(lines(content@)),
{
    let text = chars_of(content);
    let rows = lines_of(text.as_slice());
    let open = chars_of("rgba(");
    let ghost ls = lines(content@);
    let mut r: Vec<(Vec<char>, Vec<char>)> = Vec::new();
    let mut i: usize = 0;
    while i < rows.len()
        invariant
            views(rows@) == ls,
            open@ == "rgba("@,
            i <= rows@.len(),
            entry_views(r@) == color_entries(ls.take(i as int)),
        decreases rows@.len() - i,
    {
        let ghost pre = ls.take(i + 1);
        assert(pre.drop_last() == ls.take(i as int));
        assert(pre.last() == rows@[i as int]@);
        match parse_assignment(rows[i].as_slice()) {
            Some((k, v)) => {
                if has_prefix(v.as_slice(), open.as_slice()) {
                    let ghost e = (k@, v@);
                    proof {
                        assert(entry_views(r@.push((k, v))) == entry_views(r@).push(e));
                    }
                    r.push((k, v));
                }
            },
            None => {},
        }
        i = i + 1;
    }
    assert(ls.take(rows@.len() as int) == ls);
    r
}

/// The value of the last entry named `key`.
fn find_last<'a>(e: &'a Vec<(Vec<char>, Vec<char>)>, key: &str) -> (r: Option<&'a Vec<char>>)
    ensures
        match r {
            Some(v) => last_value(entry_views(e@), key@) == Some(v@),
            None => last_value(entry_views(e@), key@) is None,
        },
{
    let k = chars_of(key);
    let ghost ev = entry_views(e@);
    let mut i: usize = e.len();
    assert(ev.take(i as int) == ev);
    while i > 0
        invariant
            i <= e@.len(),
            ev == entry_views(e@),
            k@ == key@,
            last_value(ev, key@) == last_value(ev.take(i as int), key@),
        decreases i,
    {
        let ghost pre = ev.take(i as int);
        assert(pre.last() == (e@[i - 1].0@, e@[i - 1].1@));
        assert(pre.drop_last() == ev.take(i - 1));
        if same_chars(e[i - 1].0.as_slice(), k.as_slice()) {
            return Some(&e[i - 1].1);
        }
        i = i - 1;
    }
    None
}

/// The colour that the entries give to `key`.
fn entry_color(e: &Vec<(Vec<char>, Vec<char>)>, key: &str) -> (r: Option<Rgba>)
    ensures
        r == (match last_value(entry_views(e@), key@) {
            Some(v) => rgba_value(v),
            None => None,
        }),
{
    match find_last(e, key) {
        Some(v) => {
            let s = string_of(v.as_slice());
            parse_rgba_color(s.as_str())
        },
        None => None,
    }
}

/// The palette that a colour theme text defines, when it defines every colour.
pub fn read_colors_from_config(content: &str) -> (r: Option<Colors>)
    ensures
        r == theme_colors(lines(content@)),
{
    let e = parse_color_entries(content);
    let a = entry_color(&e, "surface_container_low");
    let b = entry_color(&e, "surface_container_high");
    let c = entry_color(&e, "on_surface_variant");
    let d = entry_color(&e, "on_primary_fixed");
    let f = entry_color(&e, "primary_fixed_dim");
    let g = entry_color(&e, "surface");
    let h = entry_color(&e, "surface_container");
    let o = entry_color(&e, "outline");
    match (a, b, c, d, f, g, h, o) {
        (Some(a), Some(b), Some(c), Some(d), Some(f), Some(g), Some(h), Some(o)) => Some(
            Colors {
                surface_container_low: a,
                surface_container_high: b,
                on_surface_variant: c,
                on_primary_fixed: d,
                primary_fixed_dim: f,
                surface: g,
                surface_container: h,
                outline: o,
            },
        ),
        _ => None,
    }
}

impl Colors {
    /// The palette of the theme text, or the built-in one when there is no
    /// text or it does not define every colour.
    pub fn new(config: Option<&str>) -> (r: Colors)
        ensures
            r == (match config {
                Some(t) => match theme_colors(lines(t@)) {
                    Some(c) => c,
                    None => default_colors(),
                },
                None => default_colors(),
            }),
    {
        let parsed = match config {
            Some(t) => read_colors_from_config(t),
            None => None,
        };
        match parsed {
            Some(c) => c,
            None => Colors {
                surface_container_low: Rgba { r: 27, g: 27, b: 33, a: 255 },
                surface_container_high: Rgba { r: 41, g: 42, b: 47, a: 255 },
                on_surface_variant: Rgba { r: 198, g: 197, b: 208, a: 255 },
                on_primary_fixed: Rgba { r: 8, g: 22, b: 75, a: 255 },
                primary_fixed_dim: Rgba { r: 185, g: 195, b: 255, a: 255 },
                surface: Rgba { r: 18, g: 19, b: 24, a: 255 },
                surface_container: Rgba { r: 31, g: 31, b: 37, a: 255 },
                outline: Rgba { r: 144, g: 144, b: 154, a: 255 },
            },
        }
    }
}

// ---------------------------------------------------------------------------
// The wallpaper named by the theme file
// ---------------------------------------------------------------------------

/// The value of the first `image = ...` line, without surrounding quotes.
pub open spec fn image_value(rows: Seq<Seq<char>>) -> Option<Seq<char>>
    decreases rows.len(),
{
    if rows.len() == 0 {
        None
    } else {
        match assignment(rows[0]) {
            Some((k, v)) if k == "image"@ => Some(strip_suffixes(strip_prefixes(v, "\""@), "\""@)),
            _ => image_value(rows.skip(1)),
        }
    }
}

/// The wallpaper path that the theme text names (`$image = "..."`), with `~`
/// standing for the home directory `home`.
pub fn background_path(content: &str, home: Option<&str>) -> (r: Option<String>)
    ensures
        match (r, image_value(lines(content@))) {
            (Some(p), Some(v)) => p@ == home_expanded(v, opt_view(home)),
            (None, None) => true,
            _ => false,
        },
{
    let text = chars_of(content);
    let rows = lines_of(text.as_slice());
    let image = chars_of("image");
    let quote = chars_of("\"");
    let ghost ls = lines(content@);
    assert(ls.skip(0) == ls);
    let mut i: usize = 0;
    while i < rows.len()
        invariant
            views(rows@) == ls,
            ls == lines(content@),
            image@ == "image"@,
            quote@ == "\""@,
            i <= rows@.len(),
            image_value(ls) == image_value(ls.skip(i as int)),
        decreases rows@.len() - i,
    {
        let ghost rest = ls.skip(i as int);
        assert(rest[0] == rows@[i as int]@);
        assert(rest.skip(1) == ls.skip(i + 1));
        match parse_assignment(rows[i].as_slice()) {
            Some((k, v)) => {
                if same_chars(k.as_slice(), image.as_slice()) {
                    let v = without_prefixes(v.as_slice(), quote.as_slice());
                    let v = without_suffixes(v.as_slice(), quote.as_slice());
                    let s = string_of(v.as_slice());
                    assert(image_value(rest) == Some(s@));
                    return Some(expand_home(s.as_str(), home));
                }
            },
            None => {},
        }
        i = i + 1;
    }
    assert(ls.skip(i as int).len() == 0);
    None
}

// ---------------------------------------------------------------------------
// Where the overlay stands on the screen
// ---------------------------------------------------------------------------

/// An anchor on the screen.
#[derive(PartialEq, Eq, Structural, Clone, Copy, Debug)]
pub enum Position {
    Center,
    Top,
    TopLeft,
    TopRight,
    Bottom,
    BottomLeft,
    BottomRight,
}

/// The anchor that a lower-case name denotes.
pub open spec fn position_named(l: Seq<char>) -> Option<Position> {
    if l == "center"@ {
        Some(Position::Center)
    } else if l == "top"@ {
        Some(Position::Top)
    } else if l == "top-left"@ {
        Some(Position::TopLeft)
    } else if l == "top-right"@ {
        Some(Position::TopRight)
    } else if l == "bottom"@ {
        Some(Position::Bottom)
    } else if l == "bottom-left"@ {
        Some(Position::BottomLeft)
    } else if l == "bottom-right"@ {
        Some(Position::BottomRight)
    } else {
        None
    }
}

fn is_named(l: &Vec<char>, name: &str) -> (r: bool)
    ensures
        r == (l@ == name@),
{
    let n = chars_of(name);
    same_chars(l.as_slice(), n.as_slice())
}

impl Position {
    /// The anchor that an already lower-cased name denotes.
    pub fn from_lowercase(l: &str) -> (r: Option<Position>)
        ensures
            r == position_named(l@),
    {
        let l = chars_of(l);
        if is_named(&l, "center") {
            Some(Position::Center)
        } else if is_named(&l, "top") {
            Some(Position::Top)
        } else if is_named(&l, "top-left") {
            Some(Position::TopLeft)
        } else if is_named(&l, "top-right") {
            Some(Position::TopRight)
        } else if is_named(&l, "bottom") {
            Some(Position::Bottom)
        } else if is_named(&l, "bottom-left") {
            Some(Position::BottomLeft)
        } else if is_named(&l, "bottom-right") {
            Some(Position::BottomRight)
        } else {
            None
        }
    }

    /// The anchor that a name denotes in any case, or the message that
    /// rejects it.
    pub fn parse(s: &str) -> (r: Result<Position, String>)
        ensures
            match (r, position_named(lower_of(s@))) {
                (Ok(p), Some(q)) => p == q,
                (Err(m), None) => m@ == "Invalid position: "@ + s@,
                _ => false,
            },
    {
        let l = to_lower(s);
        match Position::from_lowercase(l.as_str()) {
            Some(p) => Ok(p),
            None => {
                let mut m = String::from_str("Invalid position: ");
                m.append(s);
                Err(m)
            },
        }
    }
}

impl std::str::FromStr for Position {
    type Err = String;

    fn from_str(s: &str) -> Result<Position, String> {
        Position::parse(s)
    }
}

} // verus!
