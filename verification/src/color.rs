//! Decoding a hex color string into an RGB triple. Any malformed input
//! falls back to a fixed gray; decoding always yields a value.

use vstd::prelude::*;
use crate::model::ContributionCalendar;

verus! {

/// An RGB triple.
#[derive(Clone, Copy, PartialEq, Eq, Structural, Debug)]
pub struct Rgb {
    pub r: u8,
    pub g: u8,
    pub b: u8,
}

/// The fallback gray returned for any input that is not six hex digits.
pub open spec fn fallback_gray() -> Rgb {
    Rgb { r: 128, g: 128, b: 128 }
}

/// Whether `c` is an ASCII hexadecimal digit (either case).
pub open spec fn is_hex_digit(c: char) -> bool {
    (48 <= c as u32 && c as u32 <= 57)  // '0'..'9'
    || (97 <= c as u32 && c as u32 <= 102)  // 'a'..'f'
    || (65 <= c as u32 && c as u32 <= 70)  // 'A'..'F'
}

/// The value of a hexadecimal digit.
pub open spec fn hex_val(c: char) -> u32 {
    if 48 <= c as u32 && c as u32 <= 57 {
        ((c as u32) - 48) as u32
    } else if 97 <= c as u32 && c as u32 <= 102 {
        ((c as u32) - 87) as u32
    } else {
        ((c as u32) - 55) as u32
    }
}

/// The input with a single leading `#`, if any, removed.
pub open spec fn strip_hash(s: Seq<char>) -> Seq<char> {
    if s.len() >= 1 && s[0] == '#' {
        s.subrange(1, s.len() as int)
    } else {
        s
    }
}

/// Whether every character of `s` is a hex digit.
pub open spec fn all_hex(s: Seq<char>) -> bool {
    forall|i: int| 0 <= i < s.len() ==> is_hex_digit(#[trigger] s[i])
}

/// The byte spelled by the two hex digits of `s` at positions `2*i` and `2*i + 1`.
pub open spec fn hex_byte(s: Seq<char>, i: int) -> u8 {
    (hex_val(s[2 * i]) * 16 + hex_val(s[2 * i + 1])) as u8
}

/// What decoding yields: if the input, after stripping one optional leading
/// `#`, is exactly six hex digits, the three bytes red, green, blue in that
/// order; otherwise the fallback gray.
pub open spec fn decoded_color(s: Seq<char>) -> Rgb {
    let h = strip_hash(s);
    if h.len() == 6 && all_hex(h) {
        Rgb { r: hex_byte(h, 0), g: hex_byte(h, 1), b: hex_byte(h, 2) }
    } else {
        fallback_gray()
    }
}

/// The value of one hex digit, or `None` if `c` is not one.
fn hex_digit_value(c: char) -> (r: Option<u32>)
    ensures
        r is Some <==> is_hex_digit(c),
        r is Some ==> r->0 == hex_val(c) && r->0 < 16,
{
    let u = c as u32;
    if 48 <= u && u <= 57 {
        Some(u - 48)
    } else if 97 <= u && u <= 102 {
        Some(u - 87)
    } else if 65 <= u && u <= 70 {
        Some(u - 55)
    } else {
        None
    }
}

/// Decode a color string into its RGB triple, falling back to gray on any
/// malformed input.
pub fn decode_color(hex: &str) -> (rgb: Rgb)
    ensures
        rgb == decoded_color(hex@),
{
    let n = hex.unicode_len();
    let off: usize = if n >= 1 && hex.get_char(0) == '#' {
        1
    } else {
        0
    };
    let ghost h = strip_hash(hex@);
    assert(h.len() == n - off);
    if n - off != 6 {
        return Rgb { r: 128, g: 128, b: 128 };
    }
    assert(forall|i: int| 0 <= i < 6 ==> h[i] == hex@[off + i]);
    let d0 = hex_digit_value(hex.get_char(off));
    let d1 = hex_digit_value(hex.get_char(off + 1));
    let d2 = hex_digit_value(hex.get_char(off + 2));
    let d3 = hex_digit_value(hex.get_char(off + 3));
    let d4 = hex_digit_value(hex.get_char(off + 4));
    let d5 = hex_digit_value(hex.get_char(off + 5));
    match (d0, d1, d2, d3, d4, d5) {
        (Some(v0), Some(v1), Some(v2), Some(v3), Some(v4), Some(v5)) => {
            assert(all_hex(h)) by {
                assert forall|i: int| 0 <= i < h.len() implies is_hex_digit(h[i]) by {
                    assert(h[0] == hex@[off as int] && h[1] == hex@[off + 1] && h[2] == hex@[off
                        + 2] && h[3] == hex@[off + 3] && h[4] == hex@[off + 4] && h[5] == hex@[off
                        + 5]);
                }
            }
            Rgb { r: (v0 * 16 + v1) as u8, g: (v2 * 16 + v3) as u8, b: (v4 * 16 + v5) as u8 }
        },
        _ => {
            assert(!all_hex(h)) by {
                if d0 is None {
                    assert(!is_hex_digit(h[0]));
                } else if d1 is None {
                    assert(!is_hex_digit(h[1]));
                } else if d2 is None {
                    assert(!is_hex_digit(h[2]));
                } else if d3 is None {
                    assert(!is_hex_digit(h[3]));
                } else if d4 is None {
                    assert(!is_hex_digit(h[4]));
                } else {
                    assert(!is_hex_digit(h[5]));
                }
            }
            Rgb { r: 128, g: 128, b: 128 }
        },
    }
}

/// The display colors the grid consumes: one column per week in stored
/// order, one cell per day in weekday order, each decoded from the day's
/// color string.
pub fn calendar_colors(cal: &ContributionCalendar) -> (grid: Vec<Vec<Rgb>>)
    ensures
        grid@.len() == cal@.weeks.len(),
        forall|i: int|
            0 <= i < grid@.len() ==> (#[trigger] grid@[i])@.len() == cal@.weeks[i].days.len(),
        forall|i: int, j: int|
            0 <= i < grid@.len() && 0 <= j < grid@[i]@.len() ==> (#[trigger] grid@[i]@[j])
                == decoded_color(cal@.weeks[i].days[j].color),
{
    let mut grid: Vec<Vec<Rgb>> = Vec::new();
    let mut wi: usize = 0;
    while wi < cal.weeks.len()
        invariant
            wi <= cal.weeks@.len(),
            grid@.len() == wi,
            cal@.weeks.len() == cal.weeks@.len(),
            forall|i: int|
                0 <= i < wi ==> (#[trigger] grid@[i])@.len() == cal@.weeks[i].days.len(),
            forall|i: int, j: int|
                0 <= i < wi && 0 <= j < grid@[i]@.len() ==> (#[trigger] grid@[i]@[j])
                    == decoded_color(cal@.weeks[i].days[j].color),
        decreases cal.weeks@.len() - wi,
    {
        let week = &cal.weeks[wi];
        let mut col: Vec<Rgb> = Vec::new();
        let mut di: usize = 0;
        while di < week.contribution_days.len()
            invariant
                di <= week.contribution_days@.len(),
                col@.len() == di,
                wi < cal.weeks@.len(),
                cal@.weeks.len() == cal.weeks@.len(),
                week@ == cal@.weeks[wi as int],
                forall|j: int|
                    0 <= j < di ==> (#[trigger] col@[j]) == decoded_color(
                        cal@.weeks[wi as int].days[j].color,
                    ),
            decreases week.contribution_days@.len() - di,
        {
            let day = &week.contribution_days[di];
            proof {
                assert(week@.days[di as int] == day@);
            }
            col.push(decode_color(day.color.as_str()));
            di = di + 1;
        }
        proof {
            assert(col@.len() == cal@.weeks[wi as int].days.len());
        }
        grid.push(col);
        wi = wi + 1;
    }
    grid
}

} // verus!
