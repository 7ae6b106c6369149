//! Colors of the overlay and how a configuration file writes them.
use vstd::prelude::*;
use crate::text::chars_of;

verus! {

/// A color with 8-bit red, green and blue channels.
#[derive(Debug, Clone, Copy, PartialEq, Eq, Structural)]
pub struct Rgb {
    pub r: u8,
    pub g: u8,
    pub b: u8,
}

impl Rgb {
    /// The color with the given channels.
    pub fn new(r: u8, g: u8, b: u8) -> (c: Self)
        ensures
            c == (Rgb { r, g, b }),
    {
        Self { r, g, b }
    }

    /// The channels as a `(red, green, blue)` triple.
    pub fn rgb(self) -> (t: (u8, u8, u8))
        ensures
            t == (self.r, self.g, self.b),
    {
        (self.r, self.g, self.b)
    }
}

/// The error for a color that is not written in `#rrggbb` form.
#[derive(Debug, Clone, Copy, PartialEq, Eq, Structural)]
pub struct ColorFormatError;

/// `char::is_ascii_hexdigit`.
pub open spec fn is_hex_digit(c: char) -> bool {
    let u = c as u32;
    ||| 0x30 <= u <= 0x39
    ||| 0x61 <= u <= 0x66
    ||| 0x41 <= u <= 0x46
}

/// The value of a hexadecimal digit.
pub open spec fn hex_value(c: char) -> int {
    let u = c as u32;
    if 0x30 <= u <= 0x39 {
        u - 0x30
    } else if 0x61 <= u <= 0x66 {
        u - 0x61 + 10
    } else {
        u - 0x41 + 10
    }
}

/// `s` without its leading `'#'` characters, as `str::trim_start_matches('#')` gives it.
pub open spec fn strip_hashes(s: Seq<char>) -> Seq<char>
    decreases s.len(),
{
    if s.len() > 0 && s[0] == '#' {
        strip_hashes(s.drop_first())
    } else {
        s
    }
}

/// The byte that two hexadecimal digits spell, the first being the high one.
pub open spec fn hex_byte(hi: char, lo: char) -> u8 {
    (hex_value(hi) * 16 + hex_value(lo)) as u8
}

/// The color that `text` writes: any number of leading `'#'`, then exactly six hexadecimal
/// digits, two for each of red, green and blue.
pub open spec fn hex_color(text: Seq<char>) -> Option<Rgb> {
    let d = strip_hashes(text);
    if d.len() == 6 && forall|i: int| 0 <= i < 6 ==> is_hex_digit(#[trigger] d[i]) {
        Some(Rgb { r: hex_byte(d[0], d[1]), g: hex_byte(d[2], d[3]), b: hex_byte(d[4], d[5]) })
    } else {
        None
    }
}

/// Dropping leading `'#'` characters does not change what `strip_hashes` keeps.
proof fn lemma_strip_hashes(s: Seq<char>, i: int)
    requires
        0 <= i <= s.len(),
        forall|j: int| 0 <= j < i ==> s[j] == '#',
    ensures
        strip_hashes(s) == strip_hashes(s.subrange(i, s.len() as int)),
    decreases i,
{
    if i > 0 {
        assert(s.drop_first().subrange(i - 1, s.drop_first().len() as int) =~= s.subrange(
            i,
            s.len() as int,
        ));
        lemma_strip_hashes(s.drop_first(), i - 1);
    } else {
        assert(s.subrange(0, s.len() as int) =~= s);
    }
}

/// The value of one hexadecimal digit.
fn hex_digit(c: char) -> (r: Option<u8>)
    ensures
        match r {
            Some(v) => is_hex_digit(c) && v == hex_value(c),
            None => !is_hex_digit(c),
        },
{
    let u = c as u32;
    if 0x30 <= u && u <= 0x39 {
        Some((u - 0x30) as u8)
    } else if 0x61 <= u && u <= 0x66 {
        Some((u - 0x61 + 10) as u8)
    } else if 0x41 <= u && u <= 0x46 {
        Some((u - 0x41 + 10) as u8)
    } else {
        None
    }
}

/// Read a color in `#rrggbb` form.
pub fn parse_hex_color(text: &str) -> (r: Result<Rgb, ColorFormatError>)
    ensures
        match r {
            Ok(c) => hex_color(text@) == Some(c),
            Err(_) => hex_color(text@) is None,
        },
{
    let v = chars_of(text);
    let mut a: usize = 0;
    while a < v.len() && v[a] == '#'
        invariant
            a <= v.len(),
            forall|j: int| 0 <= j < a ==> v@[j] == '#',
        decreases v.len() - a,
    {
        a = a + 1;
    }
    let ghost d = v@.subrange(a as int, v.len() as int);
    proof {
        lemma_strip_hashes(v@, a as int);
        assert(strip_hashes(d) == d);
    }
    if v.len() - a != 6 {
        return Err(ColorFormatError);
    }
    let mut vals: Vec<u8> = Vec::new();
    let mut i: usize = 0;
    while i < 6
        invariant
            v.len() - a == 6,
            v@ == text@,
            strip_hashes(v@) == d,
            d == v@.subrange(a as int, v.len() as int),
            i <= 6,
            vals@.len() == i,
            forall|j: int| 0 <= j < i ==> is_hex_digit(#[trigger] d[j]) && vals@[j] == hex_value(d[j]),
        decreases 6 - i,
    {
        match hex_digit(v[a + i]) {
            Some(x) => vals.push(x),
            None => {
                assert(!is_hex_digit(d[i as int]));
                return Err(ColorFormatError);
            },
        }
        i = i + 1;
    }
    let r = vals[0] * 16 + vals[1];
    let g = vals[2] * 16 + vals[3];
    let b = vals[4] * 16 + vals[5];
    Ok(Rgb { r, g, b })
}

/// The colors of the overlay.
#[derive(Debug, Clone, Copy, PartialEq, Eq, Structural)]
pub struct UiColors {
    pub title: Rgb,
    pub heading: Rgb,
    pub app: Rgb,
    pub hint: Rgb,
    pub background: Rgb,
}

/// The colors of the overlay when the configuration names none: white title and heading,
/// muted blue-grey application lines, grey hints, and a near-black background.
pub open spec fn default_colors() -> UiColors {
    UiColors {
        title: Rgb { r: 0xff, g: 0xff, b: 0xff },
        heading: Rgb { r: 0xff, g: 0xff, b: 0xff },
        app: Rgb { r: 0xac, g: 0xb5, b: 0xc7 },
        hint: Rgb { r: 0x80, g: 0x80, b: 0x80 },
        background: Rgb { r: 0x1b, g: 0x18, b: 0x18 },
    }
}

impl Default for UiColors {
    fn default() -> (c: Self)
        ensures
            c == default_colors(),
    {
        Self {
            title: Rgb::new(0xff, 0xff, 0xff),
            heading: Rgb::new(0xff, 0xff, 0xff),
            app: Rgb::new(0xac, 0xb5, 0xc7),
            hint: Rgb::new(0x80, 0x80, 0x80),
            background: Rgb::new(0x1b, 0x18, 0x18),
        }
    }
}

} // verus!
