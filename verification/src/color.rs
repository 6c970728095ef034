//! Theme colors: a color name or `#rrggbb` from the configuration file.
use vstd::prelude::*;
use vstd::utf8::{encode_utf8, is_char_boundary};
use crate::text::{ascii_lower, chars_of, lowercase, string_of, text_eq, to_lowercase, trim, trimmed};

verus! {

/// A terminal color.
#[derive(Debug, Clone, Copy, PartialEq, Eq, Structural)]
pub enum ThemeColor {
    Reset,
    Black,
    Red,
    Green,
    Yellow,
    Blue,
    Magenta,
    Cyan,
    Gray,
    DarkGray,
    LightRed,
    LightGreen,
    LightYellow,
    LightBlue,
    LightMagenta,
    LightCyan,
    White,
    Rgb(u8, u8, u8),
}

/// The value of a hexadecimal digit.
pub open spec fn hex_value(c: char) -> Option<nat> {
    let u = c as u32;
    if 48 <= u <= 57 {
        Some((u - 48) as nat)
    } else if 97 <= u <= 102 {
        Some((u - 87) as nat)
    } else if 65 <= u <= 70 {
        Some((u - 55) as nat)
    } else {
        None
    }
}

/// The value of a run of hexadecimal digits, if they all are digits.
pub open spec fn hex_digits_value(s: Seq<char>) -> Option<nat>
    decreases s.len(),
{
    if s.len() == 0 {
        Some(0)
    } else {
        match (hex_digits_value(s.drop_last()), hex_value(s.last())) {
            (Some(a), Some(d)) => Some(a * 16 + d),
            _ => None,
        }
    }
}

/// What `u8::from_str_radix(s, 16)` accepts: an optional `+` and then at
/// least one hexadecimal digit, of value at most 255.
pub open spec fn parse_u8_hex(s: Seq<char>) -> Option<u8> {
    let digits = if s.len() > 0 && s[0] == '+' { s.drop_first() } else { s };
    if digits.len() == 0 {
        None
    } else {
        match hex_digits_value(digits) {
            Some(v) => if v <= 255 { Some(v as u8) } else { None },
            None => None,
        }
    }
}

/// A run of hexadecimal digits with a value is at least worth any of its
/// beginnings.
proof fn lemma_hex_prefix(s: Seq<char>, k: int)
    requires
        0 <= k <= s.len(),
    ensures
        hex_digits_value(s) matches Some(b) ==> (hex_digits_value(s.take(k)) matches Some(a) && a <= b),
    decreases s.len(),
{
    if k == s.len() {
        assert(s.take(k) =~= s);
    } else {
        let d = s.drop_last();
        lemma_hex_prefix(d, k);
        assert(d.take(k) =~= s.take(k));
    }
}

/// The value of `c` as a hexadecimal digit, if it is one.
fn hex_digit_of(c: char) -> (r: Option<u32>)
    ensures
        match hex_value(c) {
            Some(d) => r == Some(d as u32),
            None => r is None,
        },
{
    let u = c as u32;
    if 48 <= u && u <= 57 {
        Some(u - 48)
    } else if 97 <= u && u <= 102 {
        Some(u - 87)
    } else if 65 <= u && u <= 70 {
        Some(u - 55)
    } else {
        None
    }
}

/// `s` read as `u8::from_str_radix(s, 16)` reads it, the value kept on
/// success.
fn parse_hex_u8(s: &str) -> (r: Option<u8>)
    ensures
        r == parse_u8_hex(s@),
{
    let cs = chars_of(s);
    let n = cs.len();
    let start: usize = if n > 0 && cs[0] == '+' {
        1
    } else {
        0
    };
    let ghost digits = cs@.subrange(start as int, n as int);
    proof {
        if start == 1 {
            assert(digits =~= s@.drop_first());
        } else {
            assert(digits =~= s@);
        }
    }
    if start == n {
        return None;
    }
    let mut v: u32 = 0;
    let mut i: usize = start;
    assert(digits.take(0) =~= Seq::<char>::empty());
    while i < n
        invariant
            start <= i <= n,
            n == cs.len(),
            digits == cs@.subrange(start as int, n as int),
            digits == (if s@.len() > 0 && s@[0] == '+' { s@.drop_first() } else { s@ }),
            digits.len() > 0,
            hex_digits_value(digits.take(i - start)) == Some(v as nat),
            v <= 255,
        decreases n - i,
    {
        let ghost j = i - start;
        proof {
            assert(digits.take(j + 1).drop_last() =~= digits.take(j));
            assert(digits.take(j + 1).last() == cs@[i as int]);
        }
        match hex_digit_of(cs[i]) {
            Some(d) => {
                let w = v * 16 + d;
                if w > 255 {
                    proof {
                        lemma_hex_prefix(digits, j + 1);
                    }
                    return None;
                }
                v = w;
            },
            None => {
                proof {
                    lemma_hex_prefix(digits, j + 1);
                }
                return None;
            },
        }
        i = i + 1;
    }
    assert(digits.take(n - start) =~= digits);
    Some(v as u8)
}

/// The color a name stands for, `Reset` for any other name.
pub open spec fn named_color(name: Seq<char>) -> ThemeColor {
    if name == "black"@ {
        ThemeColor::Black
    } else if name == "red"@ {
        ThemeColor::Red
    } else if name == "green"@ {
        ThemeColor::Green
    } else if name == "yellow"@ {
        ThemeColor::Yellow
    } else if name == "blue"@ {
        ThemeColor::Blue
    } else if name == "magenta"@ {
        ThemeColor::Magenta
    } else if name == "cyan"@ {
        ThemeColor::Cyan
    } else if name == "gray"@ {
        ThemeColor::Gray
    } else if name == "dark_gray"@ {
        ThemeColor::DarkGray
    } else if name == "light_red"@ {
        ThemeColor::LightRed
    } else if name == "light_green"@ {
        ThemeColor::LightGreen
    } else if name == "light_yellow"@ {
        ThemeColor::LightYellow
    } else if name == "light_blue"@ {
        ThemeColor::LightBlue
    } else if name == "light_magenta"@ {
        ThemeColor::LightMagenta
    } else if name == "light_cyan"@ {
        ThemeColor::LightCyan
    } else if name == "white"@ {
        ThemeColor::White
    } else {
        ThemeColor::Reset
    }
}

/// Whether every character is ASCII.
pub open spec fn all_ascii(s: Seq<char>) -> bool {
    forall|k: int| 0 <= k < s.len() ==> (s[k] as u32) < 128
}

/// What a color setting means: once trimmed, `#` and six ASCII characters
/// that read as three hexadecimal bytes give that RGB color; otherwise the
/// lowercased setting (for ASCII text, its capitals made small) is a color
/// name.
pub open spec fn color_of(color: Seq<char>) -> ThemeColor {
    let t = trimmed(color);
    if t.len() == 7 && t[0] == '#' && all_ascii(t) && parse_u8_hex(t.subrange(1, 3)) is Some && parse_u8_hex(
        t.subrange(3, 5),
    ) is Some && parse_u8_hex(t.subrange(5, 7)) is Some {
        ThemeColor::Rgb(
            parse_u8_hex(t.subrange(1, 3))->Some_0,
            parse_u8_hex(t.subrange(3, 5))->Some_0,
            parse_u8_hex(t.subrange(5, 7))->Some_0,
        )
    } else if vstd::utf8::is_ascii_chars(t) {
        named_color(ascii_lower(t))
    } else {
        named_color(lowercase(t))
    }
}

/// The settings on which reading a color would cut a character: seven bytes
/// after trimming, starting with `#`, where byte 3 is no character boundary,
/// or where the first pair reads as a byte and byte 5 is no boundary.
pub open spec fn color_cuts_a_character(color: Seq<char>) -> bool {
    let t = trimmed(color);
    let b = encode_utf8(t);
    &&& t.len() > 0
    &&& t[0] == '#'
    &&& b.len() == 7
    &&& {
        ||| !is_char_boundary(b, 3)
        ||| (t.len() >= 3 && all_ascii(t.subrange(1, 3)) && parse_u8_hex(t.subrange(1, 3)) is Some && !is_char_boundary(b, 5))
    }
}

/// The characters `cs[from..to]` as a string.
fn slice_string(cs: &Vec<char>, from: usize, to: usize) -> (s: String)
    requires
        from <= to <= cs.len(),
    ensures
        s@ == cs@.subrange(from as int, to as int),
{
    let mut part: Vec<char> = Vec::new();
    let mut k: usize = from;
    while k < to
        invariant
            from <= k <= to,
            to <= cs.len(),
            part@ == cs@.subrange(from as int, k as int),
        decreases to - k,
    {
        part.push(cs[k]);
        k = k + 1;
        assert(part@ =~= cs@.subrange(from as int, k as int));
    }
    string_of(&part)
}

/// The color a setting names (see `color_of`).
pub fn parse_color(color: &str) -> (r: ThemeColor)
    requires
        !color_cuts_a_character(color@),
    ensures
        r == color_of(color@),
        !(r is Rgb) && vstd::utf8::is_ascii_chars(trimmed(color@)) ==> lowercase(trimmed(color@)) == ascii_lower(trimmed(color@)),
{
    let cut = trim(color);
    let t = cut.as_str();
    let cs = chars_of(t);
    if cs.len() == 7 && cs[0] == '#' {
        let mut ascii = true;
        let mut k: usize = 0;
        while k < 7
            invariant
                k <= 7,
                cs.len() == 7,
                ascii == (forall|j: int| 0 <= j < k ==> (cs@[j] as u32) < 128),
            decreases 7 - k,
        {
            if (cs[k] as u32) >= 128 {
                ascii = false;
            }
            k = k + 1;
        }
        if ascii {
            let r = parse_hex_u8(slice_string(&cs, 1, 3).as_str());
            let g = parse_hex_u8(slice_string(&cs, 3, 5).as_str());
            let b = parse_hex_u8(slice_string(&cs, 5, 7).as_str());
            match (r, g, b) {
                (Some(r), Some(g), Some(b)) => {
                    return ThemeColor::Rgb(r, g, b);
                },
                _ => {},
            }
        }
    }
    let lower = to_lowercase(t);
    let l = lower.as_str();
    if text_eq(l, "black") {
        ThemeColor::Black
    } else if text_eq(l, "red") {
        ThemeColor::Red
    } else if text_eq(l, "green") {
        ThemeColor::Green
    } else if text_eq(l, "yellow") {
        ThemeColor::Yellow
    } else if text_eq(l, "blue") {
        ThemeColor::Blue
    } else if text_eq(l, "magenta") {
        ThemeColor::Magenta
    } else if text_eq(l, "cyan") {
        ThemeColor::Cyan
    } else if text_eq(l, "gray") {
        ThemeColor::Gray
    } else if text_eq(l, "dark_gray") {
        ThemeColor::DarkGray
    } else if text_eq(l, "light_red") {
        ThemeColor::LightRed
    } else if text_eq(l, "light_green") {
        ThemeColor::LightGreen
    } else if text_eq(l, "light_yellow") {
        ThemeColor::LightYellow
    } else if text_eq(l, "light_blue") {
        ThemeColor::LightBlue
    } else if text_eq(l, "light_magenta") {
        ThemeColor::LightMagenta
    } else if text_eq(l, "light_cyan") {
        ThemeColor::LightCyan
    } else if text_eq(l, "white") {
        ThemeColor::White
    } else {
        ThemeColor::Reset
    }
}

/// A color name, in any ASCII case and with white space around it, gives
/// the color of that name: each of the sixteen names its own color, and
/// any other ASCII setting that is not a `#` color gives `Reset`.
pub proof fn law_color_names(s: Seq<char>)
    requires
        vstd::utf8::is_ascii_chars(trimmed(s)),
    ensures
        ascii_lower(trimmed(s)) == "black"@ ==> color_of(s) == ThemeColor::Black,
        ascii_lower(trimmed(s)) == "red"@ ==> color_of(s) == ThemeColor::Red,
        ascii_lower(trimmed(s)) == "green"@ ==> color_of(s) == ThemeColor::Green,
        ascii_lower(trimmed(s)) == "yellow"@ ==> color_of(s) == ThemeColor::Yellow,
        ascii_lower(trimmed(s)) == "blue"@ ==> color_of(s) == ThemeColor::Blue,
        ascii_lower(trimmed(s)) == "magenta"@ ==> color_of(s) == ThemeColor::Magenta,
        ascii_lower(trimmed(s)) == "cyan"@ ==> color_of(s) == ThemeColor::Cyan,
        ascii_lower(trimmed(s)) == "gray"@ ==> color_of(s) == ThemeColor::Gray,
        ascii_lower(trimmed(s)) == "dark_gray"@ ==> color_of(s) == ThemeColor::DarkGray,
        ascii_lower(trimmed(s)) == "light_red"@ ==> color_of(s) == ThemeColor::LightRed,
        ascii_lower(trimmed(s)) == "light_green"@ ==> color_of(s) == ThemeColor::LightGreen,
        ascii_lower(trimmed(s)) == "light_yellow"@ ==> color_of(s) == ThemeColor::LightYellow,
        ascii_lower(trimmed(s)) == "light_blue"@ ==> color_of(s) == ThemeColor::LightBlue,
        ascii_lower(trimmed(s)) == "light_magenta"@ ==> color_of(s) == ThemeColor::LightMagenta,
        ascii_lower(trimmed(s)) == "light_cyan"@ ==> color_of(s) == ThemeColor::LightCyan,
        ascii_lower(trimmed(s)) == "white"@ ==> color_of(s) == ThemeColor::White,
        !(trimmed(s).len() == 7 && trimmed(s)[0] == '#') && ascii_lower(trimmed(s)) != "black"@ && ascii_lower(trimmed(s)) != "red"@ && ascii_lower(trimmed(s)) != "green"@ && ascii_lower(trimmed(s)) != "yellow"@ && ascii_lower(trimmed(s)) != "blue"@ && ascii_lower(trimmed(s)) != "magenta"@ && ascii_lower(trimmed(s)) != "cyan"@ && ascii_lower(trimmed(s)) != "gray"@ && ascii_lower(trimmed(s)) != "dark_gray"@ && ascii_lower(trimmed(s)) != "light_red"@ && ascii_lower(trimmed(s)) != "light_green"@ && ascii_lower(trimmed(s)) != "light_yellow"@ && ascii_lower(trimmed(s)) != "light_blue"@ && ascii_lower(trimmed(s)) != "light_magenta"@ && ascii_lower(trimmed(s)) != "light_cyan"@ && ascii_lower(trimmed(s)) != "white"@ ==> color_of(s) == ThemeColor::Reset,
{
    reveal_strlit("black");
    reveal_strlit("red");
    reveal_strlit("green");
    reveal_strlit("yellow");
    reveal_strlit("blue");
    reveal_strlit("magenta");
    reveal_strlit("cyan");
    reveal_strlit("gray");
    reveal_strlit("dark_gray");
    reveal_strlit("light_red");
    reveal_strlit("light_green");
    reveal_strlit("light_yellow");
    reveal_strlit("light_blue");
    reveal_strlit("light_magenta");
    reveal_strlit("light_cyan");
    reveal_strlit("white");
    let t = trimmed(s);
    let l = ascii_lower(t);
    if t.len() == 7 && t[0] == '#' {
        assert(l[0] == '#');
    }
    assert("black"@.len() == 5);
    assert("red"@.len() == 3);
    assert("green"@.len() == 5);
    assert("yellow"@.len() == 6);
    assert("blue"@.len() == 4);
    assert("magenta"@.len() == 7);
    assert("cyan"@.len() == 4);
    assert("gray"@.len() == 4);
    assert("dark_gray"@.len() == 9);
    assert("light_red"@.len() == 9);
    assert("light_green"@.len() == 11);
    assert("light_yellow"@.len() == 12);
    assert("light_blue"@.len() == 10);
    assert("light_magenta"@.len() == 13);
    assert("light_cyan"@.len() == 10);
    assert("white"@.len() == 5);
    if l == "black"@ {

        assert(color_of(s) == named_color(l));
        assert(named_color(l) == ThemeColor::Black);
    }
    if l == "red"@ {

        assert(color_of(s) == named_color(l));
        assert(named_color(l) == ThemeColor::Red);
    }
    if l == "green"@ {
        assert("green"@[0] != "black"@[0]);
        assert(color_of(s) == named_color(l));
        assert(named_color(l) == ThemeColor::Green);
    }
    if l == "yellow"@ {

        assert(color_of(s) == named_color(l));
        assert(named_color(l) == ThemeColor::Yellow);
    }
    if l == "blue"@ {

        assert(color_of(s) == named_color(l));
        assert(named_color(l) == ThemeColor::Blue);
    }
    if l == "magenta"@ {

        assert(color_of(s) == named_color(l));
        assert(named_color(l) == ThemeColor::Magenta);
    }
    if l == "cyan"@ {
        assert("cyan"@[0] != "blue"@[0]);
        assert(color_of(s) == named_color(l));
        assert(named_color(l) == ThemeColor::Cyan);
    }
    if l == "gray"@ {
        assert("gray"@[0] != "blue"@[0]);
        assert("gray"@[0] != "cyan"@[0]);
        assert(color_of(s) == named_color(l));
        assert(named_color(l) == ThemeColor::Gray);
    }
    if l == "dark_gray"@ {

        assert(color_of(s) == named_color(l));
        assert(named_color(l) == ThemeColor::DarkGray);
    }
    if l == "light_red"@ {
        assert("light_red"@[0] != "dark_gray"@[0]);
        assert(color_of(s) == named_color(l));
        assert(named_color(l) == ThemeColor::LightRed);
    }
    if l == "light_green"@ {

        assert(color_of(s) == named_color(l));
        assert(named_color(l) == ThemeColor::LightGreen);
    }
    if l == "light_yellow"@ {

        assert(color_of(s) == named_color(l));
        assert(named_color(l) == ThemeColor::LightYellow);
    }
    if l == "light_blue"@ {

        assert(color_of(s) == named_color(l));
        assert(named_color(l) == ThemeColor::LightBlue);
    }
    if l == "light_magenta"@ {

        assert(color_of(s) == named_color(l));
        assert(named_color(l) == ThemeColor::LightMagenta);
    }
    if l == "light_cyan"@ {
        assert("light_cyan"@[6] != "light_blue"@[6]);
        assert(color_of(s) == named_color(l));
        assert(named_color(l) == ThemeColor::LightCyan);
    }
    if l == "white"@ {
        assert("white"@[0] != "black"@[0]);
        assert("white"@[0] != "green"@[0]);
        assert(color_of(s) == named_color(l));
        assert(named_color(l) == ThemeColor::White);
    }
}

/// A `#` and six hexadecimal digits give the color whose red, green and
/// blue are the three two-digit values, first digit the high one.
pub proof fn law_color_hex(s: Seq<char>)
    requires
        trimmed(s).len() == 7,
        trimmed(s)[0] == '#',
        forall|k: int| 1 <= k < 7 ==> #[trigger] hex_value(trimmed(s)[k]) is Some,
    ensures
        ({
            let t = trimmed(s);
            let h = |k: int| hex_value(t[k])->Some_0;
            color_of(s) == ThemeColor::Rgb(
                (h(1) * 16 + h(2)) as u8,
                (h(3) * 16 + h(4)) as u8,
                (h(5) * 16 + h(6)) as u8,
            )
        }),
{
    let t = trimmed(s);
    assert(all_ascii(t)) by {
        assert forall|k: int| 0 <= k < t.len() implies (t[k] as u32) < 128 by {
            if k > 0 {
                assert(hex_value(t[k]) is Some);
            }
        }
    }
    lemma_two_hex_digits(t.subrange(1, 3));
    lemma_two_hex_digits(t.subrange(3, 5));
    lemma_two_hex_digits(t.subrange(5, 7));
    assert(t.subrange(1, 3)[0] == t[1] && t.subrange(1, 3)[1] == t[2]);
    assert(t.subrange(3, 5)[0] == t[3] && t.subrange(3, 5)[1] == t[4]);
    assert(t.subrange(5, 7)[0] == t[5] && t.subrange(5, 7)[1] == t[6]);
}

/// Two hexadecimal digits read as their value.
proof fn lemma_two_hex_digits(d: Seq<char>)
    requires
        d.len() == 2,
        hex_value(d[0]) is Some,
        hex_value(d[1]) is Some,
    ensures
        parse_u8_hex(d) == Some((hex_value(d[0])->Some_0 * 16 + hex_value(d[1])->Some_0) as u8),
{
    assert(d[0] != '+');
    assert(d.drop_last().drop_last() =~= Seq::<char>::empty());
    assert(d.drop_last().last() == d[0]);
    reveal_with_fuel(hex_digits_value, 3);
    let a = hex_value(d[0])->Some_0;
    let b = hex_value(d[1])->Some_0;
    assert(hex_digits_value(d.drop_last()) == Some(a));
    assert(hex_digits_value(d) == Some(a * 16 + b));
    assert(a < 16 && b < 16);
    assert(a * 16 + b <= 255) by (nonlinear_arith)
        requires
            a < 16,
            b < 16,
    ;
}

} // verus!
