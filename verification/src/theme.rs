use vstd::prelude::*;

use crate::text::str_eq;

verus! {

/// The four semantic colors a theme resolves to, as `#RRGGBB` strings.
pub struct Colors {
    pub success: String,
    pub error: String,
    pub warning: String,
    pub info: String,
}

/// The mathematical value of `Colors`.
#[verifier::ext_equal]
pub struct ColorsView {
    pub success: Seq<char>,
    pub error: Seq<char>,
    pub warning: Seq<char>,
    pub info: Seq<char>,
}

impl View for Colors {
    type V = ColorsView;

    open spec fn view(&self) -> ColorsView {
        ColorsView {
            success: self.success@,
            error: self.error@,
            warning: self.warning@,
            info: self.info@,
        }
    }
}

/// The palette of each theme. An unrecognized name falls back to the
/// `Desert` palette.
pub open spec fn spec_colors(theme: Seq<char>) -> ColorsView {
    if theme == "Oasis"@ {
        ColorsView {
            success: "#A6DFA7"@,
            error: "#F7A1A3"@,
            warning: "#F8C98B"@,
            info: "#A5D8F3"@,
        }
    } else if theme == "Forest"@ {
        ColorsView {
            success: "#B6D8B3"@,
            error: "#E6A6A8"@,
            warning: "#F1D8A5"@,
            info: "#92C8C7"@,
        }
    } else if theme == "Snow"@ {
        ColorsView {
            success: "#C8E3D4"@,
            error: "#F4B6C2"@,
            warning: "#F8E8A1"@,
            info: "#B7E1F5"@,
        }
    } else {
        ColorsView {
            success: "#E5CAB7"@,
            error: "#FF0000"@,
            warning: "#FF00FF"@,
            info: "#DCB8B0"@,
        }
    }
}

/// Resolves a theme name to its palette.
pub fn get_colors(theme: &str) -> (c: Colors)
    ensures
        c@ == spec_colors(theme@),
{
    let c = if str_eq(theme, "Oasis") {
        Colors {
            success: "#A6DFA7".to_owned(),
            error: "#F7A1A3".to_owned(),
            warning: "#F8C98B".to_owned(),
            info: "#A5D8F3".to_owned(),
        }
    } else if str_eq(theme, "Forest") {
        Colors {
            success: "#B6D8B3".to_owned(),
            error: "#E6A6A8".to_owned(),
            warning: "#F1D8A5".to_owned(),
            info: "#92C8C7".to_owned(),
        }
    } else if str_eq(theme, "Snow") {
        Colors {
            success: "#C8E3D4".to_owned(),
            error: "#F4B6C2".to_owned(),
            warning: "#F8E8A1".to_owned(),
            info: "#B7E1F5".to_owned(),
        }
    } else {
        Colors {
            success: "#E5CAB7".to_owned(),
            error: "#FF0000".to_owned(),
            warning: "#FF00FF".to_owned(),
            info: "#DCB8B0".to_owned(),
        }
    };
    proof {
        assert(c@ =~= spec_colors(theme@));
    }
    c
}

/// The color of a palette picked by kind; an unknown kind is black.
pub open spec fn spec_color_for_type(theme: Seq<char>, color_type: Seq<char>) -> Seq<char> {
    let c = spec_colors(theme);
    if color_type == "success"@ {
        c.success
    } else if color_type == "error"@ {
        c.error
    } else if color_type == "warning"@ {
        c.warning
    } else if color_type == "info"@ {
        c.info
    } else {
        "#000000"@
    }
}

/// Resolves a theme name and picks one color of the palette by kind.
pub fn get_color_for_type(theme: &str, color_type: &str) -> (r: String)
    ensures
        r@ == spec_color_for_type(theme@, color_type@),
{
    let colors = get_colors(theme);
    if str_eq(color_type, "success") {
        colors.success
    } else if str_eq(color_type, "error") {
        colors.error
    } else if str_eq(color_type, "warning") {
        colors.warning
    } else if str_eq(color_type, "info") {
        colors.info
    } else {
        "#000000".to_owned()
    }
}

/// The single display accent a theme resolves to in local mode.
#[derive(PartialEq, Eq, Structural, Debug, Clone, Copy)]
pub enum Accent {
    Yellow,
    Cyan,
    Green,
    White,
    Blue,
}

/// The accent of each theme; an unrecognized name falls back to blue.
pub open spec fn spec_accent(theme: Seq<char>) -> Accent {
    if theme == "Desert"@ {
        Accent::Yellow
    } else if theme == "Oasis"@ {
        Accent::Cyan
    } else if theme == "Forest"@ {
        Accent::Green
    } else if theme == "Snow"@ {
        Accent::White
    } else {
        Accent::Blue
    }
}

/// Resolves a theme name to its display accent.
pub fn accent_of_theme(theme: &str) -> (a: Accent)
    ensures
        a == spec_accent(theme@),
{
    if str_eq(theme, "Desert") {
        Accent::Yellow
    } else if str_eq(theme, "Oasis") {
        Accent::Cyan
    } else if str_eq(theme, "Forest") {
        Accent::Green
    } else if str_eq(theme, "Snow") {
        Accent::White
    } else {
        Accent::Blue
    }
}

/// Whether `c` is a hexadecimal digit.
pub open spec fn is_hex_digit(c: char) -> bool {
    (48 <= c as u32 <= 57) || (65 <= c as u32 <= 70) || (97 <= c as u32 <= 102)
}

/// The numeric value of a hexadecimal digit character.
pub open spec fn hex_digit_val(c: char) -> int {
    if 48 <= c as u32 <= 57 {
        c as u32 - 48
    } else if 65 <= c as u32 <= 70 {
        c as u32 - 55
    } else {
        c as u32 - 87
    }
}

/// `s` with every leading `#` removed.
pub open spec fn strip_leading_hashes(s: Seq<char>) -> Seq<char>
    decreases s.len(),
{
    if s.len() > 0 && s[0] == '#' {
        strip_leading_hashes(s.drop_first())
    } else {
        s
    }
}

/// The red, green and blue components of a `#RRGGBB` color string: the
/// value of each pair of hexadecimal digits among the first six characters
/// after the leading hashes. Anything shorter, or a non-hexadecimal
/// character among those six, yields nothing.
pub open spec fn spec_hex_rgb(s: Seq<char>) -> Option<(u8, u8, u8)> {
    let h = strip_leading_hashes(s);
    if h.len() >= 6 && (forall|i: int| 0 <= i < 6 ==> is_hex_digit(#[trigger] h[i])) {
        Some(
            (
                (hex_digit_val(h[0]) * 16 + hex_digit_val(h[1])) as u8,
                (hex_digit_val(h[2]) * 16 + hex_digit_val(h[3])) as u8,
                (hex_digit_val(h[4]) * 16 + hex_digit_val(h[5])) as u8,
            ),
        )
    } else {
        None
    }
}

/// The value of a hexadecimal digit character, if it is one.
fn hex_val(c: char) -> (r: Option<u8>)
    ensures
        match r {
            Some(v) => is_hex_digit(c) && v == hex_digit_val(c) && v < 16,
            None => !is_hex_digit(c),
        },
{
    let u = c as u32;
    if 48 <= u && u <= 57 {
        Some((u - 48) as u8)
    } else if 65 <= u && u <= 70 {
        Some((u - 55) as u8)
    } else if 97 <= u && u <= 102 {
        Some((u - 87) as u8)
    } else {
        None
    }
}

/// Parses a `#RRGGBB` color string into its three components.
pub fn hex_to_rgb(s: &str) -> (r: Option<(u8, u8, u8)>)
    ensures
        r == spec_hex_rgb(s@),
{
    let n = s.unicode_len();
    let mut i: usize = 0;
    proof {
        assert(s@.skip(0) =~= s@);
    }
    while i < n && s.get_char(i) == '#'
        invariant
            i <= n,
            n == s@.len(),
            strip_leading_hashes(s@) == strip_leading_hashes(s@.skip(i as int)),
            forall|j: int| 0 <= j < i ==> s@[j] == '#',
        decreases n - i,
    {
        proof {
            assert(s@.skip(i as int).drop_first() =~= s@.skip(i as int + 1));
        }
        i = i + 1;
    }
    proof {
        assert(strip_leading_hashes(s@) =~= s@.skip(i as int));
    }
    let ghost h = strip_leading_hashes(s@);
    if n - i < 6 {
        return None;
    }
    let mut vals: Vec<u8> = Vec::new();
    let mut k: usize = 0;
    while k < 6
        invariant
            k <= 6,
            i + 6 <= n,
            n == s@.len(),
            h == strip_leading_hashes(s@),
            h == s@.skip(i as int),
            vals@.len() == k,
            forall|j: int| 0 <= j < k ==> is_hex_digit(#[trigger] h[j]),
            forall|j: int| 0 <= j < k ==> vals@[j] < 16 && vals@[j] == hex_digit_val(h[j]),
        decreases 6 - k,
    {
        match hex_val(s.get_char(i + k)) {
            Some(v) => {
                vals.push(v);
                proof {
                    assert(h[k as int] == s@[i + k]);
                }
            },
            None => {
                proof {
                    assert(h[k as int] == s@[i + k]);
                    assert(!is_hex_digit(h[k as int]));
                }
                return None;
            },
        }
        k = k + 1;
    }
    Some((vals[0] * 16 + vals[1], vals[2] * 16 + vals[3], vals[4] * 16 + vals[5]))
}

} // verus!
