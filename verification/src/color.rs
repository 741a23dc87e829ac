//! RGBA colors with fixed-point channels in `[0, FX_ONE]`, plus `#rrggbb`
//! hex parsing and formatting.

use vstd::prelude::*;

verus! {

use crate::fixed::FX_ONE;
use crate::text::{chars_of, push_char};

/// An RGBA color. Each channel is a fixed-point value between `0` (none)
/// and `FX_ONE` (full intensity).
#[derive(Clone, Copy, Debug, PartialEq, Eq, Structural)]
pub struct Color {
    pub r: i64,
    pub g: i64,
    pub b: i64,
    pub a: i64,
}

/// Every channel lies in `[0, FX_ONE]`.
pub open spec fn color_ok(c: Color) -> bool {
    &&& 0 <= c.r <= FX_ONE
    &&& 0 <= c.g <= FX_ONE
    &&& 0 <= c.b <= FX_ONE
    &&& 0 <= c.a <= FX_ONE
}

/// The fixed-point channel value of an 8-bit channel byte.
pub open spec fn fx_of_byte(h: int) -> int {
    h * (FX_ONE as int) / 255
}

/// The 8-bit channel byte nearest to a fixed-point channel value.
pub open spec fn byte_of_fx(v: int) -> int {
    (v * 255 + (FX_ONE as int) / 2) / (FX_ONE as int)
}

/// The value of a hexadecimal digit character, or `-1` for other characters.
pub open spec fn spec_hex_val(c: char) -> int {
    match c {
        '0' => 0,
        '1' => 1,
        '2' => 2,
        '3' => 3,
        '4' => 4,
        '5' => 5,
        '6' => 6,
        '7' => 7,
        '8' => 8,
        '9' => 9,
        'a' | 'A' => 10,
        'b' | 'B' => 11,
        'c' | 'C' => 12,
        'd' | 'D' => 13,
        'e' | 'E' => 14,
        'f' | 'F' => 15,
        _ => -1,
    }
}

/// The lowercase hexadecimal digit character for a value in `[0, 15]`.
pub open spec fn hex_char_of(d: int) -> char {
    if d == 0 {
        '0'
    } else if d == 1 {
        '1'
    } else if d == 2 {
        '2'
    } else if d == 3 {
        '3'
    } else if d == 4 {
        '4'
    } else if d == 5 {
        '5'
    } else if d == 6 {
        '6'
    } else if d == 7 {
        '7'
    } else if d == 8 {
        '8'
    } else if d == 9 {
        '9'
    } else if d == 10 {
        'a'
    } else if d == 11 {
        'b'
    } else if d == 12 {
        'c'
    } else if d == 13 {
        'd'
    } else if d == 14 {
        'e'
    } else {
        'f'
    }
}

/// A string with every leading `'#'` removed.
pub open spec fn strip_hashes(s: Seq<char>) -> Seq<char>
    decreases s.len(),
{
    if s.len() > 0 && s[0] == '#' {
        strip_hashes(s.drop_first())
    } else {
        s
    }
}

/// The byte encoded by two hex digit characters starting at index `i`.
pub open spec fn hex_byte_at(s: Seq<char>, i: int) -> int {
    spec_hex_val(s[i]) * 16 + spec_hex_val(s[i + 1])
}

/// A stripped hex color body is exactly six hex digits.
pub open spec fn hex_body_valid(s: Seq<char>) -> bool {
    s.len() == 6 && forall|i: int| 0 <= i < 6 ==> spec_hex_val(#[trigger] s[i]) >= 0
}

/// The color denoted by a `#rrggbb` string, if well-formed.
pub open spec fn spec_from_hex(s: Seq<char>) -> Option<Color> {
    let t = strip_hashes(s);
    if hex_body_valid(t) {
        Some(
            Color {
                r: fx_of_byte(hex_byte_at(t, 0)) as i64,
                g: fx_of_byte(hex_byte_at(t, 2)) as i64,
                b: fx_of_byte(hex_byte_at(t, 4)) as i64,
                a: FX_ONE as i64,
            },
        )
    } else {
        None
    }
}

/// The two hex digit characters of a byte value in `[0, 255]`.
pub open spec fn hex_byte_chars(b: int) -> Seq<char> {
    seq![hex_char_of(b / 16), hex_char_of(b % 16)]
}

/// The `#rrggbb` rendering of a color, rounding each channel to a byte.
pub open spec fn spec_to_hex(c: Color) -> Seq<char> {
    seq!['#'] + hex_byte_chars(byte_of_fx(c.r as int)) + hex_byte_chars(byte_of_fx(c.g as int))
        + hex_byte_chars(byte_of_fx(c.b as int))
}

impl Color {
    pub fn new(r: i64, g: i64, b: i64, a: i64) -> (c: Color)
        ensures
            c == (Color { r, g, b, a }),
    {
        Color { r, g, b, a }
    }

    /// An opaque color from three channels.
    pub fn rgb(r: i64, g: i64, b: i64) -> (c: Color)
        ensures
            c == (Color { r, g, b, a: FX_ONE as i64 }),
    {
        Color { r, g, b, a: FX_ONE }
    }

    pub fn white() -> (c: Color)
        ensures
            c == (Color { r: FX_ONE as i64, g: FX_ONE as i64, b: FX_ONE as i64, a: FX_ONE as i64 }),
    {
        Color { r: FX_ONE, g: FX_ONE, b: FX_ONE, a: FX_ONE }
    }

    pub fn black() -> (c: Color)
        ensures
            c == (Color { r: 0, g: 0, b: 0, a: FX_ONE as i64 }),
    {
        Color { r: 0, g: 0, b: 0, a: FX_ONE }
    }

    pub fn transparent() -> (c: Color)
        ensures
            c == (Color { r: 0, g: 0, b: 0, a: 0 }),
    {
        Color { r: 0, g: 0, b: 0, a: 0 }
    }

    /// Parse a hex color string such as `"#ef4444"` or `"ef4444"`.
    /// Returns `None` unless the string, after leading `'#'` characters,
    /// is exactly six hex digits.
    pub fn from_hex(hex: &str) -> (c: Option<Color>)
        ensures
            c == spec_from_hex(hex@),
            c is Some ==> color_ok(c->Some_0),
    {
        let chars = chars_of(hex);
        let mut start: usize = 0;
        proof {
            assert(chars@.skip(0) =~= chars@);
        }
        while start < chars.len() && chars[start] == '#'
            invariant
                0 <= start <= chars@.len(),
                forall|j: int| 0 <= j < start ==> chars@[j] == '#',
                strip_hashes(chars@) == strip_hashes(chars@.skip(start as int)),
            decreases chars@.len() - start,
        {
            proof {
                assert(chars@.skip(start as int).drop_first() =~= chars@.skip(start + 1));
            }
            start = start + 1;
        }
        let body_len = chars.len() - start;
        proof {
            assert(strip_hashes(chars@.skip(start as int)) == chars@.skip(start as int));
        }
        if body_len != 6 {
            return None;
        }
        let h0 = hex_val(chars[start]);
        let h1 = hex_val(chars[start + 1]);
        let h2 = hex_val(chars[start + 2]);
        let h3 = hex_val(chars[start + 3]);
        let h4 = hex_val(chars[start + 4]);
        let h5 = hex_val(chars[start + 5]);
        proof {
            assert forall|i: int| 0 <= i < 6 implies chars@.skip(start as int)[i] == chars@[start
                + i] by {}
        }
        if h0 < 0 || h1 < 0 || h2 < 0 || h3 < 0 || h4 < 0 || h5 < 0 {
            return None;
        }
        let r = channel_from_byte(h0 * 16 + h1);
        let g = channel_from_byte(h2 * 16 + h3);
        let b = channel_from_byte(h4 * 16 + h5);
        Some(Color { r, g, b, a: FX_ONE })
    }

    /// Render the color as a lowercase `#rrggbb` string, rounding each
    /// channel to the nearest byte. The alpha channel is not rendered.
    pub fn to_hex(&self) -> (s: String)
        requires
            color_ok(*self),
        ensures
            s@ == spec_to_hex(*self),
    {
        let mut s = String::new();
        push_char(&mut s, '#');
        push_hex_byte(&mut s, byte_from_channel(self.r));
        push_hex_byte(&mut s, byte_from_channel(self.g));
        push_hex_byte(&mut s, byte_from_channel(self.b));
        proof {
            assert(s@ =~= spec_to_hex(*self));
        }
        s
    }
}

/// The value of a hexadecimal digit character, or `-1` for other characters.
fn hex_val(c: char) -> (v: i64)
    ensures
        v == spec_hex_val(c),
{
    match c {
        '0' => 0,
        '1' => 1,
        '2' => 2,
        '3' => 3,
        '4' => 4,
        '5' => 5,
        '6' => 6,
        '7' => 7,
        '8' => 8,
        '9' => 9,
        'a' | 'A' => 10,
        'b' | 'B' => 11,
        'c' | 'C' => 12,
        'd' | 'D' => 13,
        'e' | 'E' => 14,
        'f' | 'F' => 15,
        _ => -1,
    }
}

/// The fixed-point channel for a byte value in `[0, 255]`.
fn channel_from_byte(h: i64) -> (v: i64)
    requires
        0 <= h <= 255,
    ensures
        v == fx_of_byte(h as int),
        0 <= v <= FX_ONE,
{
    proof {
        vstd::arithmetic::div_mod::lemma_div_is_ordered(
            h * (FX_ONE as int),
            255 * (FX_ONE as int),
            255,
        );
        vstd::arithmetic::div_mod::lemma_div_pos_is_pos(h * (FX_ONE as int), 255);
        assert(255 * (FX_ONE as int) / 255 == FX_ONE as int) by (nonlinear_arith);
    }
    h * FX_ONE / 255
}

/// The byte in `[0, 255]` nearest to a fixed-point channel value.
fn byte_from_channel(v: i64) -> (b: i64)
    requires
        0 <= v <= FX_ONE,
    ensures
        b == byte_of_fx(v as int),
        0 <= b <= 255,
{
    proof {
        vstd::arithmetic::div_mod::lemma_div_is_ordered(
            v * 255 + (FX_ONE as int) / 2,
            255 * (FX_ONE as int) + (FX_ONE as int) / 2,
            FX_ONE as int,
        );
        vstd::arithmetic::div_mod::lemma_div_pos_is_pos(v * 255 + (FX_ONE as int) / 2, FX_ONE as int);
        assert((255 * (FX_ONE as int) + (FX_ONE as int) / 2) / (FX_ONE as int) == 255) by (nonlinear_arith);
    }
    (v * 255 + FX_ONE / 2) / FX_ONE
}

/// Append the two hex digits of a byte value.
fn push_hex_byte(s: &mut String, b: i64)
    requires
        0 <= b <= 255,
    ensures
        final(s)@ == old(s)@ + hex_byte_chars(b as int),
{
    let hi = b / 16;
    let lo = b % 16;
    push_char(s, hex_digit(hi));
    push_char(s, hex_digit(lo));
    proof {
        assert(final(s)@ =~= old(s)@ + hex_byte_chars(b as int));
    }
}

/// The lowercase hex digit character for a value in `[0, 15]`.
fn hex_digit(d: i64) -> (c: char)
    requires
        0 <= d <= 15,
    ensures
        c == hex_char_of(d as int),
{
    if d == 0 {
        '0'
    } else if d == 1 {
        '1'
    } else if d == 2 {
        '2'
    } else if d == 3 {
        '3'
    } else if d == 4 {
        '4'
    } else if d == 5 {
        '5'
    } else if d == 6 {
        '6'
    } else if d == 7 {
        '7'
    } else if d == 8 {
        '8'
    } else if d == 9 {
        '9'
    } else if d == 10 {
        'a'
    } else if d == 11 {
        'b'
    } else if d == 12 {
        'c'
    } else if d == 13 {
        'd'
    } else if d == 14 {
        'e'
    } else {
        'f'
    }
}

/// Rounding a channel back to a byte undoes the byte-to-channel conversion.
pub proof fn lemma_channel_round_trip(h: int)
    requires
        0 <= h <= 255,
    ensures
        byte_of_fx(fx_of_byte(h)) == h,
{
    let one = FX_ONE as int;
    let q = h * one / 255;
    vstd::arithmetic::div_mod::lemma_fundamental_div_mod(h * one, 255);
    vstd::arithmetic::div_mod::lemma_mod_pos_bound(h * one, 255);
    let r = (h * one) % 255;
    assert(q * 255 == h * one - r) by (nonlinear_arith)
        requires
            h * one == 255 * q + r,
    ;
    vstd::arithmetic::div_mod::lemma_fundamental_div_mod_converse(
        q * 255 + one / 2,
        one,
        h,
        one / 2 - r,
    );
}

/// A hex digit character parses back to its value.
pub proof fn lemma_hex_digit_round_trip(d: int)
    requires
        0 <= d <= 15,
    ensures
        spec_hex_val(hex_char_of(d)) == d,
{
}


/// The rounded byte of a channel in the unit range is itself in byte
/// range.
pub proof fn lemma_byte_of_fx_range(v: int)
    requires
        0 <= v <= FX_ONE,
    ensures
        0 <= byte_of_fx(v) <= 255,
{
    vstd::arithmetic::div_mod::lemma_div_is_ordered(
        v * 255 + (FX_ONE as int) / 2,
        255 * (FX_ONE as int) + (FX_ONE as int) / 2,
        FX_ONE as int,
    );
    vstd::arithmetic::div_mod::lemma_div_pos_is_pos(v * 255 + (FX_ONE as int) / 2, FX_ONE as int);
    assert((255 * (FX_ONE as int) + (FX_ONE as int) / 2) / (FX_ONE as int) == 255)
        by (nonlinear_arith);
}

/// Rounding a channel to a byte and decoding it again moves the channel
/// by at most half a byte step: the error is within `FX_ONE / 510`,
/// rounded.
pub proof fn lemma_channel_hex_error(v: int)
    requires
        0 <= v <= FX_ONE,
    ensures
        -1961 <= fx_of_byte(byte_of_fx(v)) - v <= 1960,
{
    let one = FX_ONE as int;
    let b = byte_of_fx(v);
    let d = fx_of_byte(b);
    vstd::arithmetic::div_mod::lemma_fundamental_div_mod(v * 255 + one / 2, one);
    vstd::arithmetic::div_mod::lemma_mod_bound(v * 255 + one / 2, one);
    vstd::arithmetic::div_mod::lemma_fundamental_div_mod(b * one, 255);
    vstd::arithmetic::div_mod::lemma_mod_bound(b * one, 255);
}

/// Parsing the rendering of any valid opaque color yields the color whose
/// channels are each rounded to the nearest byte and decoded again.
pub proof fn lemma_color_hex_decode(c: Color)
    requires
        color_ok(c),
        c.a == FX_ONE,
    ensures
        spec_from_hex(spec_to_hex(c)) == Some(
            Color {
                r: fx_of_byte(byte_of_fx(c.r as int)) as i64,
                g: fx_of_byte(byte_of_fx(c.g as int)) as i64,
                b: fx_of_byte(byte_of_fx(c.b as int)) as i64,
                a: FX_ONE as i64,
            },
        ),
{
    let s = spec_to_hex(c);
    let t = strip_hashes(s);
    let br = byte_of_fx(c.r as int);
    let bg = byte_of_fx(c.g as int);
    let bb = byte_of_fx(c.b as int);
    lemma_byte_of_fx_range(c.r as int);
    lemma_byte_of_fx_range(c.g as int);
    lemma_byte_of_fx_range(c.b as int);
    assert(s[0] == '#');
    assert(s[1] == hex_char_of(br / 16));
    assert(s[1] != '#');
    assert(s.drop_first()[0] == s[1]);
    assert(strip_hashes(s) == strip_hashes(s.drop_first()));
    assert(strip_hashes(s.drop_first()) == s.drop_first());
    assert(t == s.drop_first());
    vstd::arithmetic::div_mod::lemma_fundamental_div_mod(br, 16);
    vstd::arithmetic::div_mod::lemma_mod_bound(br, 16);
    vstd::arithmetic::div_mod::lemma_fundamental_div_mod(bg, 16);
    vstd::arithmetic::div_mod::lemma_mod_bound(bg, 16);
    vstd::arithmetic::div_mod::lemma_fundamental_div_mod(bb, 16);
    vstd::arithmetic::div_mod::lemma_mod_bound(bb, 16);
    assert(br / 16 <= 15) by {
        vstd::arithmetic::div_mod::lemma_div_is_ordered(br, 255, 16);
        assert(255int / 16 == 15) by (nonlinear_arith);
    }
    assert(bg / 16 <= 15) by {
        vstd::arithmetic::div_mod::lemma_div_is_ordered(bg, 255, 16);
        assert(255int / 16 == 15) by (nonlinear_arith);
    }
    assert(bb / 16 <= 15) by {
        vstd::arithmetic::div_mod::lemma_div_is_ordered(bb, 255, 16);
        assert(255int / 16 == 15) by (nonlinear_arith);
    }
    assert(br / 16 >= 0 && bg / 16 >= 0 && bb / 16 >= 0) by {
        vstd::arithmetic::div_mod::lemma_div_pos_is_pos(br, 16);
        vstd::arithmetic::div_mod::lemma_div_pos_is_pos(bg, 16);
        vstd::arithmetic::div_mod::lemma_div_pos_is_pos(bb, 16);
    }
    lemma_hex_digit_round_trip(br / 16);
    lemma_hex_digit_round_trip(br % 16);
    lemma_hex_digit_round_trip(bg / 16);
    lemma_hex_digit_round_trip(bg % 16);
    lemma_hex_digit_round_trip(bb / 16);
    lemma_hex_digit_round_trip(bb % 16);
    assert(hex_body_valid(t));
    assert(hex_byte_at(t, 0) == br);
    assert(hex_byte_at(t, 2) == bg);
    assert(hex_byte_at(t, 4) == bb);
}

/// Formatting any valid opaque color and parsing the result moves each
/// channel by at most half a byte step.
pub proof fn lemma_color_hex_error(c: Color)
    requires
        color_ok(c),
        c.a == FX_ONE,
    ensures
        spec_from_hex(spec_to_hex(c)) is Some,
        ({
            let c2 = spec_from_hex(spec_to_hex(c))->0;
            &&& -1961 <= c2.r - c.r <= 1960
            &&& -1961 <= c2.g - c.g <= 1960
            &&& -1961 <= c2.b - c.b <= 1960
            &&& c2.a == FX_ONE
        }),
{
    lemma_color_hex_decode(c);
    lemma_channel_hex_error(c.r as int);
    lemma_channel_hex_error(c.g as int);
    lemma_channel_hex_error(c.b as int);
    lemma_byte_of_fx_range(c.r as int);
    lemma_byte_of_fx_range(c.g as int);
    lemma_byte_of_fx_range(c.b as int);
}

/// Formatting a color and parsing the result yields the same color, for any
/// color whose channels were themselves decoded from bytes (as `from_hex`
/// produces) and whose alpha is full.
pub proof fn lemma_color_hex_round_trip(c: Color)
    requires
        c.a == FX_ONE,
        exists|h: int| 0 <= h <= 255 && c.r == fx_of_byte(h),
        exists|h: int| 0 <= h <= 255 && c.g == fx_of_byte(h),
        exists|h: int| 0 <= h <= 255 && c.b == fx_of_byte(h),
    ensures
        spec_from_hex(spec_to_hex(c)) == Some(c),
{
    let hr = choose|h: int| 0 <= h <= 255 && c.r == fx_of_byte(h);
    let hg = choose|h: int| 0 <= h <= 255 && c.g == fx_of_byte(h);
    let hb = choose|h: int| 0 <= h <= 255 && c.b == fx_of_byte(h);
    lemma_channel_round_trip(hr);
    lemma_channel_round_trip(hg);
    lemma_channel_round_trip(hb);
    assert(color_ok(c)) by {
        lemma_fx_of_byte_range(hr);
        lemma_fx_of_byte_range(hg);
        lemma_fx_of_byte_range(hb);
    }
    lemma_color_hex_decode(c);
}

/// A decoded byte channel lies in the unit range.
proof fn lemma_fx_of_byte_range(h: int)
    requires
        0 <= h <= 255,
    ensures
        0 <= fx_of_byte(h) <= FX_ONE,
{
    vstd::arithmetic::div_mod::lemma_div_is_ordered(
        h * (FX_ONE as int),
        255 * (FX_ONE as int),
        255,
    );
    vstd::arithmetic::div_mod::lemma_div_pos_is_pos(h * (FX_ONE as int), 255);
    assert(255 * (FX_ONE as int) / 255 == FX_ONE as int) by (nonlinear_arith);
}

} // verus!
