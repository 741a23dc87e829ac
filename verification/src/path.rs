//! The SVG path string parser.
//!
//! Parses a path `d` attribute string into `PathCommand`s. The command
//! letters M/L/H/V/C/S/Q/T/A/Z are supported in absolute (uppercase) and
//! relative (lowercase) form, with implicit repetition for trailing
//! coordinate groups, and the smooth variants S/T reflect the previous
//! control point. Numbers take an optional sign, decimal point and
//! exponent, and become fixed-point coordinates (saturating at the
//! representable range, keeping six fractional digits).
//!
//! Malformed trailing numbers end that command's coordinate list silently;
//! unknown command letters are ignored; the parser never panics.
//!
//! Every function mirrors a spec function on the character sequence, so the
//! parse result is pinned exactly.

use vstd::prelude::*;

verus! {

use crate::fixed::{FX_ONE, fx_ok, fx_clamp, fx_add};
use crate::geom::{Vec2, vec2_ok};
use crate::shape::PathCommand;

/// Token separators: ASCII whitespace or a comma.
pub open spec fn is_sep(c: char) -> bool {
    c == ' ' || c == '\t' || c == '\n' || c == '\r' || c == ','
}

/// ASCII whitespace alone (no comma).
pub open spec fn is_ws(c: char) -> bool {
    c == ' ' || c == '\t' || c == '\n' || c == '\r'
}

/// A command letter: an ASCII letter.
pub open spec fn is_cmd_letter(c: char) -> bool {
    (97 <= c as u32 <= 122) || (65 <= c as u32 <= 90)
}

/// The value of a decimal digit character, `-1` otherwise.
pub open spec fn digit_val(c: char) -> int {
    if 48 <= c as u32 <= 57 {
        c as u32 - 48
    } else {
        -1
    }
}

/// First index at or after `i` that holds no separator.
pub open spec fn skip_sep(s: Seq<char>, i: int) -> int
    decreases s.len() - i,
{
    if 0 <= i < s.len() && is_sep(s[i]) {
        skip_sep(s, i + 1)
    } else {
        i
    }
}

/// First index at or after `i` that holds no digit.
pub open spec fn scan_digits(s: Seq<char>, i: int) -> int
    decreases s.len() - i,
{
    if 0 <= i < s.len() && digit_val(s[i]) >= 0 {
        scan_digits(s, i + 1)
    } else {
        i
    }
}

/// Skipping separators twice is the same as skipping them once.
pub proof fn lemma_skip_sep_idem(s: Seq<char>, i: int)
    requires
        0 <= i <= s.len(),
    ensures
        skip_sep(s, skip_sep(s, i)) == skip_sep(s, i),
    decreases s.len() - i,
{
    if i < s.len() && is_sep(s[i]) {
        lemma_skip_sep_idem(s, i + 1);
    }
}

/// Scanning digits never moves backwards nor past the end.
pub proof fn lemma_scan_digits_bounds(s: Seq<char>, i: int)
    requires
        0 <= i <= s.len(),
    ensures
        i <= scan_digits(s, i) <= s.len(),
    decreases s.len() - i,
{
    if i < s.len() && digit_val(s[i]) >= 0 {
        lemma_scan_digits_bounds(s, i + 1);
    }
}

/// Accumulate integer-part digits of `s[i..j)` as a saturating fixed-point
/// value on top of `acc`.
pub open spec fn int_fx_acc(s: Seq<char>, i: int, j: int, acc: int) -> int
    decreases j - i,
{
    if i < j && 0 <= i < s.len() {
        int_fx_acc(s, i + 1, j, fx_clamp(acc * 10 + digit_val(s[i]) * (FX_ONE as int)))
    } else {
        acc
    }
}

/// Accumulate fractional digits of `s[i..j)` with decreasing place value;
/// digits beyond the sixth are dropped.
pub open spec fn frac_fx_acc(s: Seq<char>, i: int, j: int, place: int, acc: int) -> int
    decreases j - i,
{
    if i < j && 0 <= i < s.len() && place > 0 {
        frac_fx_acc(s, i + 1, j, place / 10, acc + digit_val(s[i]) * place)
    } else {
        acc
    }
}

/// Accumulate exponent digits of `s[i..j)`, saturating at 1000000.
pub open spec fn exp_acc(s: Seq<char>, i: int, j: int, acc: int) -> int
    decreases j - i,
{
    if i < j && 0 <= i < s.len() {
        let next = if acc * 10 + digit_val(s[i]) > 1_000_000 {
            1_000_000
        } else {
            acc * 10 + digit_val(s[i])
        };
        exp_acc(s, i + 1, j, next)
    } else {
        acc
    }
}

/// Multiply by ten `e` times, saturating at the representable range.
pub open spec fn pow10_mul_sat(v: int, e: int) -> int
    decreases e,
{
    if e <= 0 {
        v
    } else {
        pow10_mul_sat(fx_clamp(v * 10), e - 1)
    }
}

/// Divide by ten `e` times, rounding toward negative infinity.
pub open spec fn pow10_div(v: int, e: int) -> int
    decreases e,
{
    if e <= 0 {
        v
    } else {
        pow10_div(v / 10, e - 1)
    }
}

/// The result of scanning one number starting at `i`: the value if the
/// scanned text forms a number, and the index just past everything the scan
/// consumed (consumed text is gone even when no number came of it).
pub open spec fn spec_next_number(s: Seq<char>, i: int) -> (Option<i64>, int) {
    let j = skip_sep(s, i);
    let signed = j < s.len() && (s[j] == '-' || s[j] == '+');
    let neg = j < s.len() && s[j] == '-';
    let j1 = if signed {
        j + 1
    } else {
        j
    };
    let j2 = scan_digits(s, j1);
    let has_dot = j2 < s.len() && s[j2] == '.';
    let j3 = if has_dot {
        j2 + 1
    } else {
        j2
    };
    let j4 = if has_dot {
        scan_digits(s, j3)
    } else {
        j3
    };
    let has_exp = j4 < s.len() && (s[j4] == 'e' || s[j4] == 'E');
    if !has_exp {
        if j2 > j1 || j4 > j3 {
            let mant = fx_clamp(int_fx_acc(s, j1, j2, 0) + frac_fx_acc(s, j3, j4, 100_000, 0));
            (Some((if neg { -mant } else { mant }) as i64), j4)
        } else {
            (None, j4)
        }
    } else {
        let j5 = j4 + 1;
        let esigned = j5 < s.len() && (s[j5] == '-' || s[j5] == '+');
        let eneg = j5 < s.len() && s[j5] == '-';
        let j6 = if esigned {
            j5 + 1
        } else {
            j5
        };
        let j7 = scan_digits(s, j6);
        if (j2 > j1 || j4 > j3) && j7 > j6 {
            let mant = fx_clamp(int_fx_acc(s, j1, j2, 0) + frac_fx_acc(s, j3, j4, 100_000, 0));
            let e = exp_acc(s, j6, j7, 0);
            let scaled = if eneg {
                pow10_div(mant, e)
            } else {
                pow10_mul_sat(mant, e)
            };
            (Some((if neg { -scaled } else { scaled }) as i64), j7)
        } else {
            (None, j7)
        }
    }
}

/// The result of scanning one command letter: the letter if one comes next
/// (after separators), and the index just past it.
pub open spec fn spec_next_command(s: Seq<char>, i: int) -> (Option<char>, int) {
    let j = skip_sep(s, i);
    if j < s.len() && is_cmd_letter(s[j]) {
        (Some(s[j]), j + 1)
    } else {
        (None, j)
    }
}

/// Whether, after separators, a command letter comes next.
pub open spec fn spec_peek_is_command(s: Seq<char>, i: int) -> bool {
    let j = skip_sep(s, i);
    j < s.len() && is_cmd_letter(s[j])
}

/// The result of scanning one flag (`0` or `1`) after separators.
pub open spec fn spec_next_flag(s: Seq<char>, i: int) -> (Option<bool>, int) {
    let j = skip_sep(s, i);
    if j < s.len() && s[j] == '0' {
        (Some(false), j + 1)
    } else if j < s.len() && s[j] == '1' {
        (Some(true), j + 1)
    } else {
        (None, j)
    }
}

/// The result of scanning a coordinate pair. A pending command letter stops
/// the scan before anything is consumed.
pub open spec fn spec_next_point(s: Seq<char>, i: int) -> (Option<(i64, i64)>, int) {
    if spec_peek_is_command(s, i) {
        (None, skip_sep(s, i))
    } else {
        let (x, i1) = spec_next_number(s, i);
        if x is None {
            (None, i1)
        } else {
            let (y, i2) = spec_next_number(s, i1);
            if y is None {
                (None, i2)
            } else {
                (Some((x->0, y->0)), i2)
            }
        }
    }
}

/// The seven values of one arc segment: radii, rotation, two flags, end
/// point.
pub open spec fn spec_next_arc(s: Seq<char>, i: int) -> (Option<(i64, i64, i64, bool, bool, i64, i64)>, int) {
    if spec_peek_is_command(s, i) {
        (None, skip_sep(s, i))
    } else {
        let (rx, i1) = spec_next_number(s, i);
        if rx is None {
            (None, i1)
        } else {
            let (ry, i2) = spec_next_number(s, i1);
            if ry is None {
                (None, i2)
            } else {
                let (rot, i3) = spec_next_number(s, i2);
                if rot is None {
                    (None, i3)
                } else {
                    let (laf, i4) = spec_next_flag(s, i3);
                    if laf is None {
                        (None, i4)
                    } else {
                        let (swf, i5) = spec_next_flag(s, i4);
                        if swf is None {
                            (None, i5)
                        } else {
                            let (x, i6) = spec_next_number(s, i5);
                            if x is None {
                                (None, i6)
                            } else {
                                let (y, i7) = spec_next_number(s, i6);
                                if y is None {
                                    (None, i7)
                                } else {
                                    (Some((rx->0, ry->0, rot->0, laf->0, swf->0, x->0, y->0)), i7)
                                }
                            }
                        }
                    }
                }
            }
        }
    }
}

/// Whether the character at `i` is a separator.
fn sep_at(chars: &Vec<char>, i: usize) -> (r: bool)
    requires
        i < chars@.len(),
    ensures
        r == is_sep(chars@[i as int]),
{
    let c = chars[i];
    c == ' ' || c == '\t' || c == '\n' || c == '\r' || c == ','
}

/// Whether the character at `i` is a decimal digit.
fn digit_at(chars: &Vec<char>, i: usize) -> (r: bool)
    requires
        i < chars@.len(),
    ensures
        r == (digit_val(chars@[i as int]) >= 0),
{
    let u = chars[i] as u32;
    48 <= u && u <= 57
}

/// One digit accumulated onto a fixed-point integer part.
fn acc_digit(acc: i64, d: i64) -> (r: i64)
    requires
        fx_ok(acc as int),
        0 <= d <= 9,
    ensures
        r == fx_clamp(acc * 10 + d * (FX_ONE as int)),
        fx_ok(r as int),
{
    proof {
        assert(-50_000_000_000_000_000_000 <= (acc as int) * 10 <= 50_000_000_000_000_000_000 && 0
            <= (d as int) * (FX_ONE as int) <= 9_000_000) by (nonlinear_arith)
            requires
                fx_ok(acc as int),
                0 <= d <= 9,
                crate::fixed::FX_MIN <= acc <= crate::fixed::FX_MAX,
        ;
    }
    let p: i128 = (acc as i128) * 10 + (d as i128) * (FX_ONE as i128);
    if p > crate::fixed::FX_MAX as i128 {
        crate::fixed::FX_MAX
    } else if p < crate::fixed::FX_MIN as i128 {
        crate::fixed::FX_MIN
    } else {
        p as i64
    }
}

/// A scanner over the characters of a path string.
pub struct PathTokenizer {
    chars: Vec<char>,
    pos: usize,
}

impl PathTokenizer {
    /// The scanned text.
    pub closed spec fn text(self) -> Seq<char> {
        self.chars@
    }

    /// The current scan position.
    pub closed spec fn at(self) -> int {
        self.pos as int
    }

    /// The position never passes the end of the text.
    pub closed spec fn wf(self) -> bool {
        self.pos <= self.chars@.len()
    }

    pub fn new(s: &str) -> (t: PathTokenizer)
        ensures
            t.text() == s@,
            t.at() == 0,
            t.wf(),
    {
        PathTokenizer { chars: crate::text::chars_of(s), pos: 0 }
    }

    /// The length of the scanned text.
    pub fn text_len(&self) -> (n: usize)
        ensures
            n == self.text().len(),
    {
        self.chars.len()
    }

    /// The character at an index of the scanned text.
    pub fn char_at(&self, i: usize) -> (c: char)
        requires
            i < self.text().len(),
        ensures
            c == self.text()[i as int],
    {
        self.chars[i]
    }

    /// The current scan position, as an index.
    pub fn at_pos(&self) -> (p: usize)
        ensures
            p == self.at(),
    {
        self.pos
    }

    /// Move the scan position.
    pub fn seek(&mut self, pos: usize)
        requires
            pos <= old(self).text().len(),
        ensures
            final(self).text() == old(self).text(),
            final(self).at() == pos,
            final(self).wf(),
    {
        self.pos = pos;
    }

    /// Consume separators: whitespace and commas.
    pub fn skip_whitespace_and_comma(&mut self)
        requires
            old(self).wf(),
        ensures
            final(self).text() == old(self).text(),
            final(self).at() == skip_sep(old(self).text(), old(self).at()),
            final(self).wf(),
    {
        while self.pos < self.chars.len() && sep_at(&self.chars, self.pos)
            invariant
                self.wf(),
                self.chars@ == old(self).chars@,
                skip_sep(self.chars@, old(self).pos as int) == skip_sep(
                    self.chars@,
                    self.pos as int,
                ),
            decreases self.chars@.len() - self.pos,
        {
            self.pos = self.pos + 1;
        }
    }

    /// The next command letter, if one comes next.
    pub fn next_command(&mut self) -> (r: Option<char>)
        requires
            old(self).wf(),
        ensures
            final(self).text() == old(self).text(),
            final(self).wf(),
            r == spec_next_command(old(self).text(), old(self).at()).0,
            final(self).at() == spec_next_command(old(self).text(), old(self).at()).1,
    {
        self.skip_whitespace_and_comma();
        if self.pos < self.chars.len() {
            let c = self.chars[self.pos];
            let u = c as u32;
            if (97 <= u && u <= 122) || (65 <= u && u <= 90) {
                self.pos = self.pos + 1;
                return Some(c);
            }
        }
        None
    }

    /// Whether a command letter comes next; consumes the separators before
    /// it either way.
    pub fn peek_is_command(&mut self) -> (r: bool)
        requires
            old(self).wf(),
        ensures
            final(self).text() == old(self).text(),
            final(self).wf(),
            r == spec_peek_is_command(old(self).text(), old(self).at()),
            final(self).at() == skip_sep(old(self).text(), old(self).at()),
    {
        self.skip_whitespace_and_comma();
        if self.pos < self.chars.len() {
            let u = self.chars[self.pos] as u32;
            (97 <= u && u <= 122) || (65 <= u && u <= 90)
        } else {
            false
        }
    }

    /// The next `0`/`1` flag, if one comes next.
    pub fn next_flag(&mut self) -> (r: Option<bool>)
        requires
            old(self).wf(),
        ensures
            final(self).text() == old(self).text(),
            final(self).wf(),
            r == spec_next_flag(old(self).text(), old(self).at()).0,
            final(self).at() == spec_next_flag(old(self).text(), old(self).at()).1,
    {
        self.skip_whitespace_and_comma();
        if self.pos < self.chars.len() {
            let c = self.chars[self.pos];
            if c == '0' {
                self.pos = self.pos + 1;
                return Some(false);
            }
            if c == '1' {
                self.pos = self.pos + 1;
                return Some(true);
            }
        }
        None
    }

    /// Scan one number into a fixed-point coordinate. Anything the scan
    /// touches is consumed, whether or not a number comes of it.
    #[verifier::rlimit(60)]
    pub fn next_number(&mut self) -> (r: Option<i64>)
        requires
            old(self).wf(),
        ensures
            final(self).text() == old(self).text(),
            final(self).wf(),
            r == spec_next_number(old(self).text(), old(self).at()).0,
            final(self).at() == spec_next_number(old(self).text(), old(self).at()).1,
            r is Some ==> fx_ok(r->0 as int),
    {
        let ghost s = self.chars@;
        self.skip_whitespace_and_comma();
        let mut neg = false;
        let mut signed = false;
        if self.pos < self.chars.len() {
            let c = self.chars[self.pos];
            if c == '-' {
                neg = true;
                signed = true;
            } else if c == '+' {
                signed = true;
            }
        }
        if signed {
            self.pos = self.pos + 1;
        }
        let j1 = self.pos;
        let mut acc: i64 = 0;
        while self.pos < self.chars.len() && digit_at(&self.chars, self.pos)
            invariant
                self.wf(),
                self.chars@ == s,
                j1 <= self.pos,
                fx_ok(acc as int),
                scan_digits(s, j1 as int) == scan_digits(s, self.pos as int),
                int_fx_acc(s, j1 as int, scan_digits(s, j1 as int), 0) == int_fx_acc(
                    s,
                    self.pos as int,
                    scan_digits(s, self.pos as int),
                    acc as int,
                ),
            decreases self.chars@.len() - self.pos,
        {
            proof {
                lemma_scan_digits_bounds(s, self.pos + 1);
                assert(scan_digits(s, self.pos as int) == scan_digits(s, self.pos + 1));
                assert(int_fx_acc(s, self.pos as int, scan_digits(s, self.pos as int), acc as int)
                    == int_fx_acc(
                    s,
                    self.pos + 1,
                    scan_digits(s, self.pos as int),
                    fx_clamp(acc * 10 + digit_val(s[self.pos as int]) * (FX_ONE as int)),
                ));
            }
            let u = self.chars[self.pos] as u32;
            acc = acc_digit(acc, (u - 48) as i64);
            self.pos = self.pos + 1;
        }
        let j2 = self.pos;
        let mut has_dot = false;
        if self.pos < self.chars.len() && self.chars[self.pos] == '.' {
            has_dot = true;
            self.pos = self.pos + 1;
        }
        let j3 = self.pos;
        let mut facc: i64 = 0;
        let mut place: i64 = if has_dot {
            100_000
        } else {
            0
        };
        let ghost place0: int = place as int;
        if has_dot {
            while self.pos < self.chars.len() && digit_at(&self.chars, self.pos)
                invariant
                    self.wf(),
                    self.chars@ == s,
                    j3 <= self.pos,
                    0 <= place <= 100_000,
                    0 <= facc,
                    facc + 10 * place <= FX_ONE,
                    scan_digits(s, j3 as int) == scan_digits(s, self.pos as int),
                    frac_fx_acc(s, j3 as int, scan_digits(s, j3 as int), 100_000, 0)
                        == frac_fx_acc(
                        s,
                        self.pos as int,
                        scan_digits(s, self.pos as int),
                        place as int,
                        facc as int,
                    ),
                decreases self.chars@.len() - self.pos,
            {
                proof {
                    lemma_scan_digits_bounds(s, self.pos + 1);
                    assert(scan_digits(s, self.pos as int) == scan_digits(s, self.pos + 1));
                    assert(frac_fx_acc(
                        s,
                        self.pos as int,
                        scan_digits(s, self.pos as int),
                        place as int,
                        facc as int,
                    ) == if place > 0 {
                        frac_fx_acc(
                            s,
                            self.pos + 1,
                            scan_digits(s, self.pos as int),
                            (place as int) / 10,
                            facc + digit_val(s[self.pos as int]) * place,
                        )
                    } else {
                        facc as int
                    });
                }
                let u = self.chars[self.pos] as u32;
                let d = (u - 48) as i64;
                if place > 0 {
                    proof {
                        assert(0 <= (d as int) * (place as int) <= 9 * (place as int))
                            by (nonlinear_arith)
                            requires
                                0 <= d <= 9,
                                place > 0,
                        ;
                        assert(10 * ((place as int) / 10) + 9 * (place as int) <= 10 * (
                        place as int)) by (nonlinear_arith)
                            requires
                                place > 0,
                        ;
                    }
                    facc = facc + d * place;
                    place = place / 10;
                }
                self.pos = self.pos + 1;
            }
        }
        let j4 = self.pos;
        let has_digits = j2 > j1 || j4 > j3;
        let mut has_exp = false;
        if self.pos < self.chars.len() && {
            let c = self.chars[self.pos];
            c == 'e' || c == 'E'
        } {
            has_exp = true;
            self.pos = self.pos + 1;
        }
        if !has_exp {
            if has_digits {
                let mant = fx_add(acc, facc);
                let r = if neg {
                    -mant
                } else {
                    mant
                };
                return Some(r);
            }
            return None;
        }
        let mut eneg = false;
        let mut esigned = false;
        if self.pos < self.chars.len() {
            let c = self.chars[self.pos];
            if c == '-' {
                eneg = true;
                esigned = true;
            } else if c == '+' {
                esigned = true;
            }
        }
        if esigned {
            self.pos = self.pos + 1;
        }
        let j6 = self.pos;
        let mut eacc: i64 = 0;
        while self.pos < self.chars.len() && digit_at(&self.chars, self.pos)
            invariant
                self.wf(),
                self.chars@ == s,
                j6 <= self.pos,
                0 <= eacc <= 1_000_000,
                scan_digits(s, j6 as int) == scan_digits(s, self.pos as int),
                exp_acc(s, j6 as int, scan_digits(s, j6 as int), 0) == exp_acc(
                    s,
                    self.pos as int,
                    scan_digits(s, self.pos as int),
                    eacc as int,
                ),
            decreases self.chars@.len() - self.pos,
        {
            proof {
                lemma_scan_digits_bounds(s, self.pos + 1);
                assert(scan_digits(s, self.pos as int) == scan_digits(s, self.pos + 1));
                assert(exp_acc(s, self.pos as int, scan_digits(s, self.pos as int), eacc as int)
                    == exp_acc(
                    s,
                    self.pos + 1,
                    scan_digits(s, self.pos as int),
                    if eacc * 10 + digit_val(s[self.pos as int]) > 1_000_000 {
                        1_000_000int
                    } else {
                        eacc * 10 + digit_val(s[self.pos as int])
                    },
                ));
            }
            let u = self.chars[self.pos] as u32;
            let d = (u - 48) as i64;
            eacc = if eacc * 10 + d > 1_000_000 {
                1_000_000
            } else {
                eacc * 10 + d
            };
            self.pos = self.pos + 1;
        }
        let j7 = self.pos;
        if has_digits && j7 > j6 {
            let mant = fx_add(acc, facc);
            let scaled = if eneg {
                pow10_div_exec(mant, eacc)
            } else {
                pow10_mul_exec(mant, eacc)
            };
            let r = if neg {
                -scaled
            } else {
                scaled
            };
            return Some(r);
        }
        None
    }

    /// Scan one coordinate pair; a pending command letter stops the scan.
    pub fn next_point(&mut self) -> (r: Option<(i64, i64)>)
        requires
            old(self).wf(),
        ensures
            final(self).text() == old(self).text(),
            final(self).wf(),
            r == spec_next_point(old(self).text(), old(self).at()).0,
            final(self).at() == spec_next_point(old(self).text(), old(self).at()).1,
            r is Some ==> fx_ok((r->0).0 as int) && fx_ok((r->0).1 as int),
    {
        let ghost s = self.chars@;
        let ghost i0 = self.pos as int;
        if self.peek_is_command() {
            return None;
        }
        proof {
            lemma_skip_sep_idem(s, i0);
            assert(spec_next_number(s, i0) == spec_next_number(s, self.pos as int));
        }
        let x = match self.next_number() {
            Some(v) => v,
            None => {
                return None;
            },
        };
        let y = match self.next_number() {
            Some(v) => v,
            None => {
                return None;
            },
        };
        Some((x, y))
    }

    /// Scan one arc segment: radii, rotation, two flags, end point.
    #[verifier::rlimit(60)]
    pub fn next_arc(&mut self) -> (r: Option<(i64, i64, i64, bool, bool, i64, i64)>)
        requires
            old(self).wf(),
        ensures
            final(self).text() == old(self).text(),
            final(self).wf(),
            r == spec_next_arc(old(self).text(), old(self).at()).0,
            final(self).at() == spec_next_arc(old(self).text(), old(self).at()).1,
            r is Some ==> fx_ok((r->0).0 as int) && fx_ok((r->0).1 as int) && fx_ok((r->0).2 as int)
                && fx_ok((r->0).5 as int) && fx_ok((r->0).6 as int),
    {
        let ghost s = self.chars@;
        let ghost i0 = self.pos as int;
        if self.peek_is_command() {
            return None;
        }
        proof {
            lemma_skip_sep_idem(s, i0);
            assert(spec_next_number(s, i0) == spec_next_number(s, self.pos as int));
        }
        let rx = match self.next_number() {
            Some(v) => v,
            None => {
                return None;
            },
        };
        let ry = match self.next_number() {
            Some(v) => v,
            None => {
                return None;
            },
        };
        let rot = match self.next_number() {
            Some(v) => v,
            None => {
                return None;
            },
        };
        let laf = match self.next_flag() {
            Some(v) => v,
            None => {
                return None;
            },
        };
        let swf = match self.next_flag() {
            Some(v) => v,
            None => {
                return None;
            },
        };
        let x = match self.next_number() {
            Some(v) => v,
            None => {
                return None;
            },
        };
        let y = match self.next_number() {
            Some(v) => v,
            None => {
                return None;
            },
        };
        Some((rx, ry, rot, laf, swf, x, y))
    }
}

/// Resolve a scanned coordinate pair against the pen position: relative
/// pairs are offsets from it, absolute pairs stand alone.
pub open spec fn spec_rel_pt(cur: Vec2, x: i64, y: i64, rel: bool) -> Vec2 {
    if rel {
        Vec2 { x: fx_clamp(cur.x + x) as i64, y: fx_clamp(cur.y + y) as i64 }
    } else {
        Vec2 { x, y }
    }
}

/// The reflection of a control point about the pen position.
pub open spec fn spec_reflect(cur: Vec2, lc: Vec2) -> Vec2 {
    Vec2 {
        x: fx_clamp(fx_clamp(cur.x + cur.x) - lc.x) as i64,
        y: fx_clamp(fx_clamp(cur.y + cur.y) - lc.y) as i64,
    }
}

/// The coordinate list of an `M`/`m` (with `first`) or `L`/`l` (without):
/// the emitted commands, the end of the scan, the final pen position and
/// subpath start. The first pair of a moveto moves, the rest draw lines.
pub open spec fn spec_parse_m(
    s: Seq<char>,
    i: int,
    rel: bool,
    first: bool,
    cur: Vec2,
    start: Vec2,
) -> (Seq<PathCommand>, int, Vec2, Vec2)
    decreases s.len() - i,
{
    let (p, i1) = spec_next_point(s, i);
    if p is None || i1 <= i || i1 > s.len() {
        (Seq::empty(), i1, cur, start)
    } else {
        let pt = spec_rel_pt(cur, (p->0).0, (p->0).1, rel);
        let cmd = if first {
            PathCommand::MoveTo(pt)
        } else {
            PathCommand::LineTo(pt)
        };
        let nstart = if first {
            pt
        } else {
            start
        };
        let t = spec_parse_m(s, i1, rel, false, pt, nstart);
        (seq![cmd] + t.0, t.1, t.2, t.3)
    }
}

/// The coordinate list of an `H`/`h` or `V`/`v`: horizontal when `horiz`,
/// else vertical. Each number draws an axis-aligned line.
pub open spec fn spec_parse_hv(s: Seq<char>, i: int, rel: bool, horiz: bool, cur: Vec2) -> (
    Seq<PathCommand>,
    int,
    Vec2,
)
    decreases s.len() - i,
{
    let (n, i1) = spec_next_number(s, i);
    if n is None || i1 <= i || i1 > s.len() {
        (Seq::empty(), i1, cur)
    } else {
        let v = n->0;
        let pt = if horiz {
            Vec2 {
                x: (if rel {
                    fx_clamp(cur.x + v)
                } else {
                    v as int
                }) as i64,
                y: cur.y,
            }
        } else {
            Vec2 {
                x: cur.x,
                y: (if rel {
                    fx_clamp(cur.y + v)
                } else {
                    v as int
                }) as i64,
            }
        };
        let t = spec_parse_hv(s, i1, rel, horiz, pt);
        (seq![PathCommand::LineTo(pt)] + t.0, t.1, t.2)
    }
}

/// The coordinate list of a `C`/`c`: triples of points forming cubic
/// segments; missing trailing points repeat the previous pair.
pub open spec fn spec_parse_c(s: Seq<char>, i: int, rel: bool, cur: Vec2, lc: Option<Vec2>) -> (
    Seq<PathCommand>,
    int,
    Vec2,
    Option<Vec2>,
)
    decreases s.len() - i,
{
    let (p1, i1) = spec_next_point(s, i);
    if p1 is None || i1 <= i || i1 > s.len() {
        (Seq::empty(), i1, cur, lc)
    } else {
        let (p2, i2) = spec_next_point(s, i1);
        let q2 = if p2 is Some {
            p2->0
        } else {
            p1->0
        };
        let (p3, i3) = spec_next_point(s, i2);
        let q3 = if p3 is Some {
            p3->0
        } else {
            q2
        };
        let ctrl1 = spec_rel_pt(cur, (p1->0).0, (p1->0).1, rel);
        let ctrl2 = spec_rel_pt(cur, q2.0, q2.1, rel);
        let end = spec_rel_pt(cur, q3.0, q3.1, rel);
        let cmd = PathCommand::CubicTo { ctrl1, ctrl2, to: end };
        if i3 <= i || i3 > s.len() {
            (seq![cmd], i3, end, Some(ctrl2))
        } else {
            let t = spec_parse_c(s, i3, rel, end, Some(ctrl2));
            (seq![cmd] + t.0, t.1, t.2, t.3)
        }
    }
}

/// The coordinate list of an `S`/`s`: smooth cubics whose first control
/// point reflects the previous one (when `reflect_ok` and one exists).
pub open spec fn spec_parse_s(
    s: Seq<char>,
    i: int,
    rel: bool,
    cur: Vec2,
    lc: Option<Vec2>,
    reflect_ok: bool,
) -> (Seq<PathCommand>, int, Vec2, Option<Vec2>)
    decreases s.len() - i,
{
    let (p2, i1) = spec_next_point(s, i);
    if p2 is None || i1 <= i || i1 > s.len() {
        (Seq::empty(), i1, cur, lc)
    } else {
        let (p3, i2) = spec_next_point(s, i1);
        let q3 = if p3 is Some {
            p3->0
        } else {
            p2->0
        };
        let ctrl1 = if reflect_ok && lc is Some {
            spec_reflect(cur, lc->0)
        } else {
            cur
        };
        let ctrl2 = spec_rel_pt(cur, (p2->0).0, (p2->0).1, rel);
        let end = spec_rel_pt(cur, q3.0, q3.1, rel);
        let cmd = PathCommand::CubicTo { ctrl1, ctrl2, to: end };
        if i2 <= i || i2 > s.len() {
            (seq![cmd], i2, end, Some(ctrl2))
        } else {
            let t = spec_parse_s(s, i2, rel, end, Some(ctrl2), reflect_ok);
            (seq![cmd] + t.0, t.1, t.2, t.3)
        }
    }
}

/// The coordinate list of a `Q`/`q`: pairs of points forming quadratic
/// segments.
pub open spec fn spec_parse_q(s: Seq<char>, i: int, rel: bool, cur: Vec2, lc: Option<Vec2>) -> (
    Seq<PathCommand>,
    int,
    Vec2,
    Option<Vec2>,
)
    decreases s.len() - i,
{
    let (p1, i1) = spec_next_point(s, i);
    if p1 is None || i1 <= i || i1 > s.len() {
        (Seq::empty(), i1, cur, lc)
    } else {
        let (p2, i2) = spec_next_point(s, i1);
        let q2 = if p2 is Some {
            p2->0
        } else {
            p1->0
        };
        let control = spec_rel_pt(cur, (p1->0).0, (p1->0).1, rel);
        let end = spec_rel_pt(cur, q2.0, q2.1, rel);
        let cmd = PathCommand::QuadraticTo { control, to: end };
        if i2 <= i || i2 > s.len() {
            (seq![cmd], i2, end, Some(control))
        } else {
            let t = spec_parse_q(s, i2, rel, end, Some(control));
            (seq![cmd] + t.0, t.1, t.2, t.3)
        }
    }
}

/// The coordinate list of a `T`/`t`: smooth quadratics whose control point
/// reflects the previous one (when `reflect_ok` and one exists).
pub open spec fn spec_parse_t(
    s: Seq<char>,
    i: int,
    rel: bool,
    cur: Vec2,
    lc: Option<Vec2>,
    reflect_ok: bool,
) -> (Seq<PathCommand>, int, Vec2, Option<Vec2>)
    decreases s.len() - i,
{
    let (p, i1) = spec_next_point(s, i);
    if p is None || i1 <= i || i1 > s.len() {
        (Seq::empty(), i1, cur, lc)
    } else {
        let control = if reflect_ok && lc is Some {
            spec_reflect(cur, lc->0)
        } else {
            cur
        };
        let end = spec_rel_pt(cur, (p->0).0, (p->0).1, rel);
        let cmd = PathCommand::QuadraticTo { control, to: end };
        let t = spec_parse_t(s, i1, rel, end, Some(control), reflect_ok);
        (seq![cmd] + t.0, t.1, t.2, t.3)
    }
}

/// The argument list of an `A`/`a`: arcs ending at (possibly relative) end
/// points.
pub open spec fn spec_parse_a(s: Seq<char>, i: int, rel: bool, cur: Vec2) -> (
    Seq<PathCommand>,
    int,
    Vec2,
)
    decreases s.len() - i,
{
    let (a, i1) = spec_next_arc(s, i);
    if a is None || i1 <= i || i1 > s.len() {
        (Seq::empty(), i1, cur)
    } else {
        let v = a->0;
        let end = spec_rel_pt(cur, v.5, v.6, rel);
        let cmd = PathCommand::ArcTo {
            rx: v.0,
            ry: v.1,
            x_rotation: v.2,
            large_arc: v.3,
            sweep: v.4,
            to: end,
        };
        let t = spec_parse_a(s, i1, rel, end);
        (seq![cmd] + t.0, t.1, t.2)
    }
}

/// What one command letter does, starting its argument scan at `i`: the
/// emitted commands, the end of the scan, and the next pen position,
/// subpath start, last control point and last command letter. Unknown
/// letters emit nothing and change nothing.
pub open spec fn spec_dispatch(
    s: Seq<char>,
    i: int,
    ch: char,
    cur: Vec2,
    start: Vec2,
    lc: Option<Vec2>,
    lcmd: Option<char>,
) -> (Seq<PathCommand>, int, Vec2, Vec2, Option<Vec2>, Option<char>) {
    if ch == 'M' || ch == 'm' {
        let t = spec_parse_m(s, i, ch == 'm', true, cur, start);
        (t.0, t.1, t.2, t.3, None, Some('M'))
    } else if ch == 'L' || ch == 'l' {
        let t = spec_parse_m(s, i, ch == 'l', false, cur, start);
        (t.0, t.1, t.2, t.3, None, Some('L'))
    } else if ch == 'H' || ch == 'h' {
        let t = spec_parse_hv(s, i, ch == 'h', true, cur);
        (t.0, t.1, t.2, start, None, Some('H'))
    } else if ch == 'V' || ch == 'v' {
        let t = spec_parse_hv(s, i, ch == 'v', false, cur);
        (t.0, t.1, t.2, start, None, Some('V'))
    } else if ch == 'C' || ch == 'c' {
        let t = spec_parse_c(s, i, ch == 'c', cur, lc);
        (t.0, t.1, t.2, start, t.3, Some('C'))
    } else if ch == 'S' || ch == 's' {
        let refl = lcmd == Some('C') || lcmd == Some('S');
        let t = spec_parse_s(s, i, ch == 's', cur, lc, refl);
        (t.0, t.1, t.2, start, t.3, Some('S'))
    } else if ch == 'Q' || ch == 'q' {
        let t = spec_parse_q(s, i, ch == 'q', cur, lc);
        (t.0, t.1, t.2, start, t.3, Some('Q'))
    } else if ch == 'T' || ch == 't' {
        let refl = lcmd == Some('Q') || lcmd == Some('T');
        let t = spec_parse_t(s, i, ch == 't', cur, lc, refl);
        (t.0, t.1, t.2, start, t.3, Some('T'))
    } else if ch == 'A' || ch == 'a' {
        let t = spec_parse_a(s, i, ch == 'a', cur);
        (t.0, t.1, t.2, start, None, Some('A'))
    } else if ch == 'Z' || ch == 'z' {
        (seq![PathCommand::Close], i, start, start, None, Some('Z'))
    } else {
        (Seq::empty(), i, cur, start, lc, lcmd)
    }
}

/// The whole path: read command letters in turn and run each one's
/// argument list. `lc` is the last control point and `lcmd` the last
/// command letter (uppercased), for the smooth variants.
pub open spec fn spec_parse_path(
    s: Seq<char>,
    i: int,
    cur: Vec2,
    start: Vec2,
    lc: Option<Vec2>,
    lcmd: Option<char>,
) -> Seq<PathCommand>
    decreases s.len() - i,
{
    let (c, i1) = spec_next_command(s, i);
    if c is None || i1 <= i || i1 > s.len() {
        Seq::empty()
    } else {
        let dd = spec_dispatch(s, i1, c->0, cur, start, lc, lcmd);
        dd.0 + if dd.1 <= i || dd.1 > s.len() {
            Seq::empty()
        } else {
            spec_parse_path(s, dd.1, dd.2, dd.3, dd.4, dd.5)
        }
    }
}

/// Resolve a scanned pair against the pen position.
fn rel_pt(cur: Vec2, x: i64, y: i64, rel: bool) -> (r: Vec2)
    requires
        vec2_ok(cur),
        fx_ok(x as int),
        fx_ok(y as int),
    ensures
        r == spec_rel_pt(cur, x, y, rel),
        vec2_ok(r),
{
    if rel {
        Vec2 { x: fx_add(cur.x, x), y: fx_add(cur.y, y) }
    } else {
        Vec2 { x, y }
    }
}

/// Reflect a control point about the pen position.
fn reflect_pt(cur: Vec2, lc: Vec2) -> (r: Vec2)
    requires
        vec2_ok(cur),
        vec2_ok(lc),
    ensures
        r == spec_reflect(cur, lc),
        vec2_ok(r),
{
    Vec2 {
        x: crate::fixed::fx_sub(fx_add(cur.x, cur.x), lc.x),
        y: crate::fixed::fx_sub(fx_add(cur.y, cur.y), lc.y),
    }
}

/// All commands in a vector are well-formed.
pub open spec fn cmds_ok(cmds: Seq<PathCommand>) -> bool {
    forall|k: int| 0 <= k < cmds.len() ==> crate::shape::path_cmd_ok(#[trigger] cmds[k])
}

/// Run the coordinate list of an `M`/`m` (with `first`) or `L`/`l`.
fn run_m(tok: &mut PathTokenizer, rel: bool, first: bool, cur: Vec2, start: Vec2, cmds: &mut Vec<
    PathCommand,
>) -> (r: (Vec2, Vec2))
    requires
        old(tok).wf(),
        vec2_ok(cur),
        vec2_ok(start),
        cmds_ok(old(cmds)@),
    ensures
        final(tok).text() == old(tok).text(),
        final(tok).wf(),
        ({
            let t = spec_parse_m(old(tok).text(), old(tok).at(), rel, first, cur, start);
            final(cmds)@ == old(cmds)@ + t.0 && final(tok).at() == t.1 && r.0 == t.2 && r.1 == t.3
        }),
        cmds_ok(final(cmds)@),
        vec2_ok(r.0),
        vec2_ok(r.1),
{
    let ghost s = old(tok).text();
    let ghost n0 = old(cmds)@.len() as int;
    let ghost i0 = old(tok).at();
    let ghost cur0 = cur;
    let ghost start0 = start;
    let ghost first0 = first;
    let mut cur = cur;
    let mut start = start;
    let mut first = first;
    loop
        invariant_except_break
            ({
                let te = spec_parse_m(s, i0, rel, first0, cur0, start0);
                let tn = spec_parse_m(s, tok.at(), rel, first, cur, start);
                te.0 == cmds@.skip(n0) + tn.0 && te.1 == tn.1 && te.2 == tn.2 && te.3 == tn.3
            }),
        invariant
            tok.wf(),
            tok.text() == s,
            vec2_ok(cur),
            vec2_ok(start),
            cmds_ok(cmds@),
            0 <= n0 <= cmds@.len(),
            cmds@.take(n0) == old(cmds)@,
        ensures
            tok.wf(),
            tok.text() == s,
            vec2_ok(cur),
            vec2_ok(start),
            cmds_ok(cmds@),
            ({
                let te = spec_parse_m(s, i0, rel, first0, cur0, start0);
                cmds@ == old(cmds)@ + te.0 && tok.at() == te.1 && cur == te.2 && start == te.3
            }),
        decreases s.len() - tok.at(),
    {
        let ghost ib = tok.at();
        let ghost curb = cur;
        let ghost startb = start;
        let ghost firstb = first;
        let ghost cmdsb = cmds@;
        let p0 = tok.pos;
        let popt = tok.next_point();
        match popt {
            None => {
                proof {
                    let tb = spec_parse_m(s, ib, rel, firstb, curb, startb);
                    assert(tb.0 =~= Seq::<PathCommand>::empty());
                    assert(cmds@ =~= cmds@.take(n0) + cmds@.skip(n0));
                    assert(cmds@.skip(n0) + tb.0 =~= cmds@.skip(n0));
                }
                break ;
            },
            Some((x, y)) => {
                if tok.pos <= p0 {
                    // Defensive stop mirroring the specification's progress
                    // guard; a parsed pair always consumes characters.
                    proof {
                        let tb = spec_parse_m(s, ib, rel, firstb, curb, startb);
                        assert(tb.0 =~= Seq::<PathCommand>::empty());
                        assert(cmds@ =~= cmds@.take(n0) + cmds@.skip(n0));
                        assert(cmds@.skip(n0) + tb.0 =~= cmds@.skip(n0));
                    }
                    break ;
                }
                let pt = rel_pt(cur, x, y, rel);
                let cmd = if first {
                    PathCommand::MoveTo(pt)
                } else {
                    PathCommand::LineTo(pt)
                };
                cmds.push(cmd);
                if first {
                    start = pt;
                }
                cur = pt;
                first = false;
                proof {
                    let tb = spec_parse_m(s, ib, rel, firstb, curb, startb);
                    let tn = spec_parse_m(s, tok.at(), rel, first, cur, start);
                    assert(tb.0 =~= seq![cmd] + tn.0);
                    assert(cmds@.skip(n0) =~= cmdsb.skip(n0) + seq![cmd]);
                    assert(cmds@.skip(n0) + tn.0 =~= cmdsb.skip(n0) + tb.0);
                    assert(cmds@.take(n0) =~= cmdsb.take(n0));
                }
            },
        }
    }
    proof {
        assert(cmds@ =~= old(cmds)@ + spec_parse_m(s, i0, rel, first0, cur0, start0).0);
    }
    (cur, start)
}

/// Run the coordinate list of an `H`/`h` (with `horiz`) or `V`/`v`.
fn run_hv(tok: &mut PathTokenizer, rel: bool, horiz: bool, cur: Vec2, cmds: &mut Vec<
    PathCommand,
>) -> (r: Vec2)
    requires
        old(tok).wf(),
        vec2_ok(cur),
        cmds_ok(old(cmds)@),
    ensures
        final(tok).text() == old(tok).text(),
        final(tok).wf(),
        ({
            let t = spec_parse_hv(old(tok).text(), old(tok).at(), rel, horiz, cur);
            final(cmds)@ == old(cmds)@ + t.0 && final(tok).at() == t.1 && r == t.2
        }),
        cmds_ok(final(cmds)@),
        vec2_ok(r),
{
    let ghost s = old(tok).text();
    let ghost n0 = old(cmds)@.len() as int;
    let ghost i0 = old(tok).at();
    let ghost cur0 = cur;
    let mut cur = cur;
    loop
        invariant_except_break
            ({
                let te = spec_parse_hv(s, i0, rel, horiz, cur0);
                let tn = spec_parse_hv(s, tok.at(), rel, horiz, cur);
                te.0 == cmds@.skip(n0) + tn.0 && te.1 == tn.1 && te.2 == tn.2
            }),
        invariant
            tok.wf(),
            tok.text() == s,
            vec2_ok(cur),
            cmds_ok(cmds@),
            0 <= n0 <= cmds@.len(),
            cmds@.take(n0) == old(cmds)@,
        ensures
            tok.wf(),
            tok.text() == s,
            vec2_ok(cur),
            cmds_ok(cmds@),
            ({
                let te = spec_parse_hv(s, i0, rel, horiz, cur0);
                cmds@ == old(cmds)@ + te.0 && tok.at() == te.1 && cur == te.2
            }),
        decreases s.len() - tok.at(),
    {
        let ghost ib = tok.at();
        let ghost curb = cur;
        let ghost cmdsb = cmds@;
        let p0 = tok.pos;
        let nopt = tok.next_number();
        match nopt {
            None => {
                proof {
                    let tb = spec_parse_hv(s, ib, rel, horiz, curb);
                    assert(tb.0 =~= Seq::<PathCommand>::empty());
                    assert(cmds@ =~= cmds@.take(n0) + cmds@.skip(n0));
                    assert(cmds@.skip(n0) + tb.0 =~= cmds@.skip(n0));
                }
                break ;
            },
            Some(v) => {
                if tok.pos <= p0 {
                    // Defensive stop mirroring the specification's progress
                    // guard; a parsed number always consumes characters.
                    proof {
                        let tb = spec_parse_hv(s, ib, rel, horiz, curb);
                        assert(tb.0 =~= Seq::<PathCommand>::empty());
                        assert(cmds@ =~= cmds@.take(n0) + cmds@.skip(n0));
                        assert(cmds@.skip(n0) + tb.0 =~= cmds@.skip(n0));
                    }
                    break ;
                }
                let pt = if horiz {
                    Vec2 {
                        x: if rel {
                            fx_add(cur.x, v)
                        } else {
                            v
                        },
                        y: cur.y,
                    }
                } else {
                    Vec2 {
                        x: cur.x,
                        y: if rel {
                            fx_add(cur.y, v)
                        } else {
                            v
                        },
                    }
                };
                let cmd = PathCommand::LineTo(pt);
                cmds.push(cmd);
                cur = pt;
                proof {
                    let tb = spec_parse_hv(s, ib, rel, horiz, curb);
                    let tn = spec_parse_hv(s, tok.at(), rel, horiz, cur);
                    assert(tb.0 =~= seq![cmd] + tn.0);
                    assert(cmds@.skip(n0) =~= cmdsb.skip(n0) + seq![cmd]);
                    assert(cmds@.skip(n0) + tn.0 =~= cmdsb.skip(n0) + tb.0);
                    assert(cmds@.take(n0) =~= cmdsb.take(n0));
                }
            },
        }
    }
    proof {
        assert(cmds@ =~= old(cmds)@ + spec_parse_hv(s, i0, rel, horiz, cur0).0);
    }
    cur
}

/// Run the coordinate list of a `C`/`c`.
#[verifier::rlimit(100)]
fn run_c(
    tok: &mut PathTokenizer,
    rel: bool,
    cur: Vec2,
    lc: Option<Vec2>,
    cmds: &mut Vec<PathCommand>,
) -> (r: (Vec2, Option<Vec2>))
    requires
        old(tok).wf(),
        vec2_ok(cur),
        lc is Some ==> vec2_ok(lc->0),
        cmds_ok(old(cmds)@),
    ensures
        final(tok).text() == old(tok).text(),
        final(tok).wf(),
        ({
            let t = spec_parse_c(old(tok).text(), old(tok).at(), rel, cur, lc);
            final(cmds)@ == old(cmds)@ + t.0 && final(tok).at() == t.1 && r.0 == t.2 && r.1 == t.3
        }),
        cmds_ok(final(cmds)@),
        vec2_ok(r.0),
        r.1 is Some ==> vec2_ok(r.1->0),
{
    let ghost s = old(tok).text();
    let ghost n0 = old(cmds)@.len() as int;
    let ghost i0 = old(tok).at();
    let ghost cur0 = cur;
    let ghost lc0 = lc;
    let mut cur = cur;
    let mut lc = lc;
    loop
        invariant_except_break
            ({
                let te = spec_parse_c(s, i0, rel, cur0, lc0);
                let tn = spec_parse_c(s, tok.at(), rel, cur, lc);
                te.0 == cmds@.skip(n0) + tn.0 && te.1 == tn.1 && te.2 == tn.2 && te.3 == tn.3
            }),
        invariant
            tok.wf(),
            tok.text() == s,
            vec2_ok(cur),
            lc is Some ==> vec2_ok(lc->0),
            cmds_ok(cmds@),
            0 <= n0 <= cmds@.len(),
            cmds@.take(n0) == old(cmds)@,
        ensures
            tok.wf(),
            tok.text() == s,
            vec2_ok(cur),
            lc is Some ==> vec2_ok(lc->0),
            cmds_ok(cmds@),
            ({
                let te = spec_parse_c(s, i0, rel, cur0, lc0);
                cmds@ == old(cmds)@ + te.0 && tok.at() == te.1 && cur == te.2 && lc == te.3
            }),
        decreases s.len() - tok.at(),
    {
        let ghost ib = tok.at();
        let ghost curb = cur;
        let ghost lcb = lc;
        let ghost cmdsb = cmds@;
        let p0 = tok.pos;
        let p1opt = tok.next_point();
        match p1opt {
            None => {
                proof {
                    let tb = spec_parse_c(s, ib, rel, curb, lcb);
                    assert(tb.0 =~= Seq::<PathCommand>::empty());
                    assert(cmds@ =~= cmds@.take(n0) + cmds@.skip(n0));
                    assert(cmds@.skip(n0) + tb.0 =~= cmds@.skip(n0));
                }
                break ;
            },
            Some((x1, y1)) => {
                if tok.pos <= p0 {
                    // Defensive stop mirroring the specification's progress
                    // guard; a parsed pair always consumes characters.
                    proof {
                        let tb = spec_parse_c(s, ib, rel, curb, lcb);
                        assert(tb.0 =~= Seq::<PathCommand>::empty());
                        assert(cmds@ =~= cmds@.take(n0) + cmds@.skip(n0));
                        assert(cmds@.skip(n0) + tb.0 =~= cmds@.skip(n0));
                    }
                    break ;
                }
                let p2opt = tok.next_point();
                let (x2, y2) = match p2opt {
                    Some(p) => p,
                    None => (x1, y1),
                };
                let p3opt = tok.next_point();
                let (x3, y3) = match p3opt {
                    Some(p) => p,
                    None => (x2, y2),
                };
                let ctrl1 = rel_pt(cur, x1, y1, rel);
                let ctrl2 = rel_pt(cur, x2, y2, rel);
                let end = rel_pt(cur, x3, y3, rel);
                let cmd = PathCommand::CubicTo { ctrl1, ctrl2, to: end };
                cmds.push(cmd);
                cur = end;
                lc = Some(ctrl2);
                if tok.pos <= p0 {
                    // Same guard for the position after a whole triple.
                    proof {
                        let tb = spec_parse_c(s, ib, rel, curb, lcb);
                        assert(tb.0 =~= seq![cmd]);
                        assert(cmds@.skip(n0) =~= cmdsb.skip(n0) + seq![cmd]);
                        assert(cmds@ =~= cmds@.take(n0) + cmds@.skip(n0));
                        assert(cmds@.take(n0) =~= cmdsb.take(n0));
                    }
                    break ;
                }
                proof {
                    let tb = spec_parse_c(s, ib, rel, curb, lcb);
                    let tn = spec_parse_c(s, tok.at(), rel, cur, lc);
                    assert(tb.0 =~= seq![cmd] + tn.0);
                    assert(cmds@.skip(n0) =~= cmdsb.skip(n0) + seq![cmd]);
                    assert(cmds@.skip(n0) + tn.0 =~= cmdsb.skip(n0) + tb.0);
                    assert(cmds@.take(n0) =~= cmdsb.take(n0));
                }
            },
        }
    }
    proof {
        assert(cmds@ =~= old(cmds)@ + spec_parse_c(s, i0, rel, cur0, lc0).0);
    }
    (cur, lc)
}

/// Run the coordinate list of an `S`/`s`.
#[verifier::rlimit(100)]
fn run_s(
    tok: &mut PathTokenizer,
    rel: bool,
    cur: Vec2,
    lc: Option<Vec2>,
    reflect_ok: bool,
    cmds: &mut Vec<PathCommand>,
) -> (r: (Vec2, Option<Vec2>))
    requires
        old(tok).wf(),
        vec2_ok(cur),
        lc is Some ==> vec2_ok(lc->0),
        cmds_ok(old(cmds)@),
    ensures
        final(tok).text() == old(tok).text(),
        final(tok).wf(),
        ({
            let t = spec_parse_s(old(tok).text(), old(tok).at(), rel, cur, lc, reflect_ok);
            final(cmds)@ == old(cmds)@ + t.0 && final(tok).at() == t.1 && r.0 == t.2 && r.1 == t.3
        }),
        cmds_ok(final(cmds)@),
        vec2_ok(r.0),
        r.1 is Some ==> vec2_ok(r.1->0),
{
    let ghost s = old(tok).text();
    let ghost n0 = old(cmds)@.len() as int;
    let ghost i0 = old(tok).at();
    let ghost cur0 = cur;
    let ghost lc0 = lc;
    let mut cur = cur;
    let mut lc = lc;
    loop
        invariant_except_break
            ({
                let te = spec_parse_s(s, i0, rel, cur0, lc0, reflect_ok);
                let tn = spec_parse_s(s, tok.at(), rel, cur, lc, reflect_ok);
                te.0 == cmds@.skip(n0) + tn.0 && te.1 == tn.1 && te.2 == tn.2 && te.3 == tn.3
            }),
        invariant
            tok.wf(),
            tok.text() == s,
            vec2_ok(cur),
            lc is Some ==> vec2_ok(lc->0),
            cmds_ok(cmds@),
            0 <= n0 <= cmds@.len(),
            cmds@.take(n0) == old(cmds)@,
        ensures
            tok.wf(),
            tok.text() == s,
            vec2_ok(cur),
            lc is Some ==> vec2_ok(lc->0),
            cmds_ok(cmds@),
            ({
                let te = spec_parse_s(s, i0, rel, cur0, lc0, reflect_ok);
                cmds@ == old(cmds)@ + te.0 && tok.at() == te.1 && cur == te.2 && lc == te.3
            }),
        decreases s.len() - tok.at(),
    {
        let ghost ib = tok.at();
        let ghost curb = cur;
        let ghost lcb = lc;
        let ghost cmdsb = cmds@;
        let p0 = tok.pos;
        let p2opt = tok.next_point();
        match p2opt {
            None => {
                proof {
                    let tb = spec_parse_s(s, ib, rel, curb, lcb, reflect_ok);
                    assert(tb.0 =~= Seq::<PathCommand>::empty());
                    assert(cmds@ =~= cmds@.take(n0) + cmds@.skip(n0));
                    assert(cmds@.skip(n0) + tb.0 =~= cmds@.skip(n0));
                }
                break ;
            },
            Some((x2, y2)) => {
                if tok.pos <= p0 {
                    // Defensive stop mirroring the specification's progress
                    // guard; a parsed pair always consumes characters.
                    proof {
                        let tb = spec_parse_s(s, ib, rel, curb, lcb, reflect_ok);
                        assert(tb.0 =~= Seq::<PathCommand>::empty());
                        assert(cmds@ =~= cmds@.take(n0) + cmds@.skip(n0));
                        assert(cmds@.skip(n0) + tb.0 =~= cmds@.skip(n0));
                    }
                    break ;
                }
                let p3opt = tok.next_point();
                let (x3, y3) = match p3opt {
                    Some(p) => p,
                    None => (x2, y2),
                };
                let ctrl1 = if reflect_ok {
                    match lc {
                        Some(l) => reflect_pt(cur, l),
                        None => cur,
                    }
                } else {
                    cur
                };
                let ctrl2 = rel_pt(cur, x2, y2, rel);
                let end = rel_pt(cur, x3, y3, rel);
                let cmd = PathCommand::CubicTo { ctrl1, ctrl2, to: end };
                cmds.push(cmd);
                cur = end;
                lc = Some(ctrl2);
                if tok.pos <= p0 {
                    // Same guard for the position after a whole pair.
                    proof {
                        let tb = spec_parse_s(s, ib, rel, curb, lcb, reflect_ok);
                        assert(tb.0 =~= seq![cmd]);
                        assert(cmds@.skip(n0) =~= cmdsb.skip(n0) + seq![cmd]);
                        assert(cmds@ =~= cmds@.take(n0) + cmds@.skip(n0));
                        assert(cmds@.take(n0) =~= cmdsb.take(n0));
                    }
                    break ;
                }
                proof {
                    let tb = spec_parse_s(s, ib, rel, curb, lcb, reflect_ok);
                    let tn = spec_parse_s(s, tok.at(), rel, cur, lc, reflect_ok);
                    assert(tb.0 =~= seq![cmd] + tn.0);
                    assert(cmds@.skip(n0) =~= cmdsb.skip(n0) + seq![cmd]);
                    assert(cmds@.skip(n0) + tn.0 =~= cmdsb.skip(n0) + tb.0);
                    assert(cmds@.take(n0) =~= cmdsb.take(n0));
                }
            },
        }
    }
    proof {
        assert(cmds@ =~= old(cmds)@ + spec_parse_s(s, i0, rel, cur0, lc0, reflect_ok).0);
    }
    (cur, lc)
}

/// Run the coordinate list of a `Q`/`q`.
#[verifier::rlimit(100)]
fn run_q(
    tok: &mut PathTokenizer,
    rel: bool,
    cur: Vec2,
    lc: Option<Vec2>,
    cmds: &mut Vec<PathCommand>,
) -> (r: (Vec2, Option<Vec2>))
    requires
        old(tok).wf(),
        vec2_ok(cur),
        lc is Some ==> vec2_ok(lc->0),
        cmds_ok(old(cmds)@),
    ensures
        final(tok).text() == old(tok).text(),
        final(tok).wf(),
        ({
            let t = spec_parse_q(old(tok).text(), old(tok).at(), rel, cur, lc);
            final(cmds)@ == old(cmds)@ + t.0 && final(tok).at() == t.1 && r.0 == t.2 && r.1 == t.3
        }),
        cmds_ok(final(cmds)@),
        vec2_ok(r.0),
        r.1 is Some ==> vec2_ok(r.1->0),
{
    let ghost s = old(tok).text();
    let ghost n0 = old(cmds)@.len() as int;
    let ghost i0 = old(tok).at();
    let ghost cur0 = cur;
    let ghost lc0 = lc;
    let mut cur = cur;
    let mut lc = lc;
    loop
        invariant_except_break
            ({
                let te = spec_parse_q(s, i0, rel, cur0, lc0);
                let tn = spec_parse_q(s, tok.at(), rel, cur, lc);
                te.0 == cmds@.skip(n0) + tn.0 && te.1 == tn.1 && te.2 == tn.2 && te.3 == tn.3
            }),
        invariant
            tok.wf(),
            tok.text() == s,
            vec2_ok(cur),
            lc is Some ==> vec2_ok(lc->0),
            cmds_ok(cmds@),
            0 <= n0 <= cmds@.len(),
            cmds@.take(n0) == old(cmds)@,
        ensures
            tok.wf(),
            tok.text() == s,
            vec2_ok(cur),
            lc is Some ==> vec2_ok(lc->0),
            cmds_ok(cmds@),
            ({
                let te = spec_parse_q(s, i0, rel, cur0, lc0);
                cmds@ == old(cmds)@ + te.0 && tok.at() == te.1 && cur == te.2 && lc == te.3
            }),
        decreases s.len() - tok.at(),
    {
        let ghost ib = tok.at();
        let ghost curb = cur;
        let ghost lcb = lc;
        let ghost cmdsb = cmds@;
        let p0 = tok.pos;
        let p1opt = tok.next_point();
        match p1opt {
            None => {
                proof {
                    let tb = spec_parse_q(s, ib, rel, curb, lcb);
                    assert(tb.0 =~= Seq::<PathCommand>::empty());
                    assert(cmds@ =~= cmds@.take(n0) + cmds@.skip(n0));
                    assert(cmds@.skip(n0) + tb.0 =~= cmds@.skip(n0));
                }
                break ;
            },
            Some((x1, y1)) => {
                if tok.pos <= p0 {
                    // Defensive stop mirroring the specification's progress
                    // guard; a parsed pair always consumes characters.
                    proof {
                        let tb = spec_parse_q(s, ib, rel, curb, lcb);
                        assert(tb.0 =~= Seq::<PathCommand>::empty());
                        assert(cmds@ =~= cmds@.take(n0) + cmds@.skip(n0));
                        assert(cmds@.skip(n0) + tb.0 =~= cmds@.skip(n0));
                    }
                    break ;
                }
                let p2opt = tok.next_point();
                let (x2, y2) = match p2opt {
                    Some(p) => p,
                    None => (x1, y1),
                };
                let control = rel_pt(cur, x1, y1, rel);
                let end = rel_pt(cur, x2, y2, rel);
                let cmd = PathCommand::QuadraticTo { control, to: end };
                cmds.push(cmd);
                cur = end;
                lc = Some(control);
                if tok.pos <= p0 {
                    // Same guard for the position after a whole pair.
                    proof {
                        let tb = spec_parse_q(s, ib, rel, curb, lcb);
                        assert(tb.0 =~= seq![cmd]);
                        assert(cmds@.skip(n0) =~= cmdsb.skip(n0) + seq![cmd]);
                        assert(cmds@ =~= cmds@.take(n0) + cmds@.skip(n0));
                        assert(cmds@.take(n0) =~= cmdsb.take(n0));
                    }
                    break ;
                }
                proof {
                    let tb = spec_parse_q(s, ib, rel, curb, lcb);
                    let tn = spec_parse_q(s, tok.at(), rel, cur, lc);
                    assert(tb.0 =~= seq![cmd] + tn.0);
                    assert(cmds@.skip(n0) =~= cmdsb.skip(n0) + seq![cmd]);
                    assert(cmds@.skip(n0) + tn.0 =~= cmdsb.skip(n0) + tb.0);
                    assert(cmds@.take(n0) =~= cmdsb.take(n0));
                }
            },
        }
    }
    proof {
        assert(cmds@ =~= old(cmds)@ + spec_parse_q(s, i0, rel, cur0, lc0).0);
    }
    (cur, lc)
}

/// Run the coordinate list of a `T`/`t`.
#[verifier::rlimit(100)]
fn run_t(
    tok: &mut PathTokenizer,
    rel: bool,
    cur: Vec2,
    lc: Option<Vec2>,
    reflect_ok: bool,
    cmds: &mut Vec<PathCommand>,
) -> (r: (Vec2, Option<Vec2>))
    requires
        old(tok).wf(),
        vec2_ok(cur),
        lc is Some ==> vec2_ok(lc->0),
        cmds_ok(old(cmds)@),
    ensures
        final(tok).text() == old(tok).text(),
        final(tok).wf(),
        ({
            let t = spec_parse_t(old(tok).text(), old(tok).at(), rel, cur, lc, reflect_ok);
            final(cmds)@ == old(cmds)@ + t.0 && final(tok).at() == t.1 && r.0 == t.2 && r.1 == t.3
        }),
        cmds_ok(final(cmds)@),
        vec2_ok(r.0),
        r.1 is Some ==> vec2_ok(r.1->0),
{
    let ghost s = old(tok).text();
    let ghost n0 = old(cmds)@.len() as int;
    let ghost i0 = old(tok).at();
    let ghost cur0 = cur;
    let ghost lc0 = lc;
    let mut cur = cur;
    let mut lc = lc;
    loop
        invariant_except_break
            ({
                let te = spec_parse_t(s, i0, rel, cur0, lc0, reflect_ok);
                let tn = spec_parse_t(s, tok.at(), rel, cur, lc, reflect_ok);
                te.0 == cmds@.skip(n0) + tn.0 && te.1 == tn.1 && te.2 == tn.2 && te.3 == tn.3
            }),
        invariant
            tok.wf(),
            tok.text() == s,
            vec2_ok(cur),
            lc is Some ==> vec2_ok(lc->0),
            cmds_ok(cmds@),
            0 <= n0 <= cmds@.len(),
            cmds@.take(n0) == old(cmds)@,
        ensures
            tok.wf(),
            tok.text() == s,
            vec2_ok(cur),
            lc is Some ==> vec2_ok(lc->0),
            cmds_ok(cmds@),
            ({
                let te = spec_parse_t(s, i0, rel, cur0, lc0, reflect_ok);
                cmds@ == old(cmds)@ + te.0 && tok.at() == te.1 && cur == te.2 && lc == te.3
            }),
        decreases s.len() - tok.at(),
    {
        let ghost ib = tok.at();
        let ghost curb = cur;
        let ghost lcb = lc;
        let ghost cmdsb = cmds@;
        let p0 = tok.pos;
        let popt = tok.next_point();
        match popt {
            None => {
                proof {
                    let tb = spec_parse_t(s, ib, rel, curb, lcb, reflect_ok);
                    assert(tb.0 =~= Seq::<PathCommand>::empty());
                    assert(cmds@ =~= cmds@.take(n0) + cmds@.skip(n0));
                    assert(cmds@.skip(n0) + tb.0 =~= cmds@.skip(n0));
                }
                break ;
            },
            Some((x, y)) => {
                if tok.pos <= p0 {
                    // Defensive stop mirroring the specification's progress
                    // guard; a parsed pair always consumes characters.
                    proof {
                        let tb = spec_parse_t(s, ib, rel, curb, lcb, reflect_ok);
                        assert(tb.0 =~= Seq::<PathCommand>::empty());
                        assert(cmds@ =~= cmds@.take(n0) + cmds@.skip(n0));
                        assert(cmds@.skip(n0) + tb.0 =~= cmds@.skip(n0));
                    }
                    break ;
                }
                let control = if reflect_ok {
                    match lc {
                        Some(l) => reflect_pt(cur, l),
                        None => cur,
                    }
                } else {
                    cur
                };
                let end = rel_pt(cur, x, y, rel);
                let cmd = PathCommand::QuadraticTo { control, to: end };
                cmds.push(cmd);
                cur = end;
                lc = Some(control);
                proof {
                    let tb = spec_parse_t(s, ib, rel, curb, lcb, reflect_ok);
                    let tn = spec_parse_t(s, tok.at(), rel, cur, lc, reflect_ok);
                    assert(tb.0 =~= seq![cmd] + tn.0);
                    assert(cmds@.skip(n0) =~= cmdsb.skip(n0) + seq![cmd]);
                    assert(cmds@.skip(n0) + tn.0 =~= cmdsb.skip(n0) + tb.0);
                    assert(cmds@.take(n0) =~= cmdsb.take(n0));
                }
            },
        }
    }
    proof {
        assert(cmds@ =~= old(cmds)@ + spec_parse_t(s, i0, rel, cur0, lc0, reflect_ok).0);
    }
    (cur, lc)
}

/// Run the argument list of an `A`/`a`.
#[verifier::rlimit(100)]
fn run_a(tok: &mut PathTokenizer, rel: bool, cur: Vec2, cmds: &mut Vec<PathCommand>) -> (r: Vec2)
    requires
        old(tok).wf(),
        vec2_ok(cur),
        cmds_ok(old(cmds)@),
    ensures
        final(tok).text() == old(tok).text(),
        final(tok).wf(),
        ({
            let t = spec_parse_a(old(tok).text(), old(tok).at(), rel, cur);
            final(cmds)@ == old(cmds)@ + t.0 && final(tok).at() == t.1 && r == t.2
        }),
        cmds_ok(final(cmds)@),
        vec2_ok(r),
{
    let ghost s = old(tok).text();
    let ghost n0 = old(cmds)@.len() as int;
    let ghost i0 = old(tok).at();
    let ghost cur0 = cur;
    let mut cur = cur;
    loop
        invariant_except_break
            ({
                let te = spec_parse_a(s, i0, rel, cur0);
                let tn = spec_parse_a(s, tok.at(), rel, cur);
                te.0 == cmds@.skip(n0) + tn.0 && te.1 == tn.1 && te.2 == tn.2
            }),
        invariant
            tok.wf(),
            tok.text() == s,
            vec2_ok(cur),
            cmds_ok(cmds@),
            0 <= n0 <= cmds@.len(),
            cmds@.take(n0) == old(cmds)@,
        ensures
            tok.wf(),
            tok.text() == s,
            vec2_ok(cur),
            cmds_ok(cmds@),
            ({
                let te = spec_parse_a(s, i0, rel, cur0);
                cmds@ == old(cmds)@ + te.0 && tok.at() == te.1 && cur == te.2
            }),
        decreases s.len() - tok.at(),
    {
        let ghost ib = tok.at();
        let ghost curb = cur;
        let ghost cmdsb = cmds@;
        let p0 = tok.pos;
        let aopt = tok.next_arc();
        match aopt {
            None => {
                proof {
                    let tb = spec_parse_a(s, ib, rel, curb);
                    assert(tb.0 =~= Seq::<PathCommand>::empty());
                    assert(cmds@ =~= cmds@.take(n0) + cmds@.skip(n0));
                    assert(cmds@.skip(n0) + tb.0 =~= cmds@.skip(n0));
                }
                break ;
            },
            Some((rx, ry, rot, laf, swf, x, y)) => {
                if tok.pos <= p0 {
                    // Defensive stop mirroring the specification's progress
                    // guard; a parsed arc always consumes characters.
                    proof {
                        let tb = spec_parse_a(s, ib, rel, curb);
                        assert(tb.0 =~= Seq::<PathCommand>::empty());
                        assert(cmds@ =~= cmds@.take(n0) + cmds@.skip(n0));
                        assert(cmds@.skip(n0) + tb.0 =~= cmds@.skip(n0));
                    }
                    break ;
                }
                let end = rel_pt(cur, x, y, rel);
                let cmd = PathCommand::ArcTo {
                    rx,
                    ry,
                    x_rotation: rot,
                    large_arc: laf,
                    sweep: swf,
                    to: end,
                };
                cmds.push(cmd);
                cur = end;
                proof {
                    let tb = spec_parse_a(s, ib, rel, curb);
                    let tn = spec_parse_a(s, tok.at(), rel, cur);
                    assert(tb.0 =~= seq![cmd] + tn.0);
                    assert(cmds@.skip(n0) =~= cmdsb.skip(n0) + seq![cmd]);
                    assert(cmds@.skip(n0) + tn.0 =~= cmdsb.skip(n0) + tb.0);
                    assert(cmds@.take(n0) =~= cmdsb.take(n0));
                }
            },
        }
    }
    proof {
        assert(cmds@ =~= old(cmds)@ + spec_parse_a(s, i0, rel, cur0).0);
    }
    cur
}

/// Run one command letter's argument list, returning the new pen
/// position, subpath start, last control point and last command letter.
#[verifier::rlimit(100)]
fn run_command(
    tok: &mut PathTokenizer,
    c: char,
    cur: Vec2,
    start: Vec2,
    lc: Option<Vec2>,
    lcmd: Option<char>,
    cmds: &mut Vec<PathCommand>,
) -> (r: (Vec2, Vec2, Option<Vec2>, Option<char>))
    requires
        old(tok).wf(),
        vec2_ok(cur),
        vec2_ok(start),
        lc is Some ==> vec2_ok(lc->0),
        cmds_ok(old(cmds)@),
    ensures
        final(tok).text() == old(tok).text(),
        final(tok).wf(),
        ({
            let dd = spec_dispatch(old(tok).text(), old(tok).at(), c, cur, start, lc, lcmd);
            final(cmds)@ == old(cmds)@ + dd.0 && final(tok).at() == dd.1 && r.0 == dd.2 && r.1
                == dd.3 && r.2 == dd.4 && r.3 == dd.5
        }),
        cmds_ok(final(cmds)@),
        vec2_ok(r.0),
        vec2_ok(r.1),
        r.2 is Some ==> vec2_ok(r.2->0),
{
    match c {
        'M' | 'm' => {
            let t = run_m(tok, c == 'm', true, cur, start, cmds);
            (t.0, t.1, None, Some('M'))
        },
        'L' | 'l' => {
            let t = run_m(tok, c == 'l', false, cur, start, cmds);
            (t.0, t.1, None, Some('L'))
        },
        'H' | 'h' => {
            let t = run_hv(tok, c == 'h', true, cur, cmds);
            (t, start, None, Some('H'))
        },
        'V' | 'v' => {
            let t = run_hv(tok, c == 'v', false, cur, cmds);
            (t, start, None, Some('V'))
        },
        'C' | 'c' => {
            let t = run_c(tok, c == 'c', cur, lc, cmds);
            (t.0, start, t.1, Some('C'))
        },
        'S' | 's' => {
            let refl = lcmd == Some('C') || lcmd == Some('S');
            let t = run_s(tok, c == 's', cur, lc, refl, cmds);
            (t.0, start, t.1, Some('S'))
        },
        'Q' | 'q' => {
            let t = run_q(tok, c == 'q', cur, lc, cmds);
            (t.0, start, t.1, Some('Q'))
        },
        'T' | 't' => {
            let refl = lcmd == Some('Q') || lcmd == Some('T');
            let t = run_t(tok, c == 't', cur, lc, refl, cmds);
            (t.0, start, t.1, Some('T'))
        },
        'A' | 'a' => {
            let t = run_a(tok, c == 'a', cur, cmds);
            (t, start, None, Some('A'))
        },
        'Z' | 'z' => {
            cmds.push(PathCommand::Close);
            proof {
                assert(cmds@ =~= old(cmds)@ + seq![PathCommand::Close]);
            }
            (start, start, None, Some('Z'))
        },
        _ => {
            // Unknown command letters are ignored.
            proof {
                assert(cmds@ =~= old(cmds)@ + Seq::<PathCommand>::empty());
            }
            (cur, start, lc, lcmd)
        },
    }
}

/// Parse an SVG path string into a vector of path commands.
///
/// The result is pinned exactly by `spec_parse_path` on the string's
/// characters, starting with the pen at the origin.
#[verifier::rlimit(100)]
pub fn parse_svg_path(d: &str) -> (cmds: Vec<PathCommand>)
    ensures
        cmds@ == spec_parse_path(
            d@,
            0,
            Vec2 { x: 0, y: 0 },
            Vec2 { x: 0, y: 0 },
            None::<Vec2>,
            None::<char>,
        ),
        cmds_ok(cmds@),
{
    let ghost s = d@;
    let zero = Vec2 { x: 0, y: 0 };
    let mut tok = PathTokenizer::new(d);
    let mut cmds: Vec<PathCommand> = Vec::new();
    let mut cur = zero;
    let mut start = zero;
    let mut last_control: Option<Vec2> = None;
    let mut last_command: Option<char> = None;
    loop
        invariant_except_break
            spec_parse_path(s, 0, zero, zero, None::<Vec2>, None::<char>) == cmds@
                + spec_parse_path(s, tok.at(), cur, start, last_control, last_command),
        invariant
            tok.wf(),
            tok.text() == s,
            zero == (Vec2 { x: 0i64, y: 0i64 }),
            vec2_ok(cur),
            vec2_ok(start),
            last_control is Some ==> vec2_ok(last_control->0),
            cmds_ok(cmds@),
        ensures
            spec_parse_path(s, 0, zero, zero, None::<Vec2>, None::<char>) == cmds@,
            cmds_ok(cmds@),
        decreases s.len() - tok.at(),
    {
        let ghost ib = tok.at();
        let ghost curb = cur;
        let ghost startb = start;
        let ghost lcb = last_control;
        let ghost lcmdb = last_command;
        let ghost cmdsb = cmds@;
        let p0 = tok.pos;
        let copt = tok.next_command();
        let c = match copt {
            None => {
                proof {
                    assert(spec_parse_path(s, ib, curb, startb, lcb, lcmdb) =~= Seq::<
                        PathCommand,
                    >::empty());
                }
                break ;
            },
            Some(c) => c,
        };
        if tok.pos <= p0 {
            // Defensive stop mirroring the specification's progress guard;
            // a command letter always consumes a character.
            proof {
                assert(spec_parse_path(s, ib, curb, startb, lcb, lcmdb) =~= Seq::<
                    PathCommand,
                >::empty());
            }
            break ;
        }
        let ghost i1 = tok.at();
        let r = run_command(&mut tok, c, cur, start, last_control, last_command, &mut cmds);
        cur = r.0;
        start = r.1;
        last_control = r.2;
        last_command = r.3;
        if tok.pos <= p0 {
            // Defensive stop mirroring the specification's progress guard
            // on the position after a command's argument list.
            proof {
                let dd = spec_dispatch(s, i1, c, curb, startb, lcb, lcmdb);
                assert(spec_parse_path(s, ib, curb, startb, lcb, lcmdb) =~= dd.0);
                assert(cmds@ =~= cmdsb + dd.0);
                assert(spec_parse_path(s, 0, zero, zero, None::<Vec2>, None::<char>) =~= cmds@);
            }
            break ;
        }
        proof {
            let dd = spec_dispatch(s, i1, c, curb, startb, lcb, lcmdb);
            assert(spec_parse_path(s, ib, curb, startb, lcb, lcmdb) =~= dd.0 + spec_parse_path(
                s,
                tok.at(),
                cur,
                start,
                last_control,
                last_command,
            ));
            assert(cmdsb + (dd.0 + spec_parse_path(
                s,
                tok.at(),
                cur,
                start,
                last_control,
                last_command,
            )) =~= cmds@ + spec_parse_path(s, tok.at(), cur, start, last_control, last_command));
        }
    }
    cmds
}

/// Multiply by ten `e` times, saturating.
fn pow10_mul_exec(v: i64, e: i64) -> (r: i64)
    requires
        fx_ok(v as int),
        0 <= e,
    ensures
        r == pow10_mul_sat(v as int, e as int),
        fx_ok(r as int),
{
    let ghost v0 = v as int;
    let mut v = v;
    let mut k = e;
    while k > 0
        invariant
            fx_ok(v as int),
            0 <= k,
            pow10_mul_sat(v as int, k as int) == pow10_mul_sat(v0, e as int),
        decreases k,
    {
        proof {
            assert(pow10_mul_sat(v as int, k as int) == pow10_mul_sat(
                fx_clamp((v as int) * 10),
                k - 1,
            ));
        }
        let p: i128 = (v as i128) * 10;
        v = if p > crate::fixed::FX_MAX as i128 {
            crate::fixed::FX_MAX
        } else if p < crate::fixed::FX_MIN as i128 {
            crate::fixed::FX_MIN
        } else {
            p as i64
        };
        k = k - 1;
    }
    v
}

/// Divide by ten `e` times, rounding toward negative infinity.
fn pow10_div_exec(v: i64, e: i64) -> (r: i64)
    requires
        fx_ok(v as int),
        0 <= e,
    ensures
        r == pow10_div(v as int, e as int),
        fx_ok(r as int),
{
    let ghost v0 = v as int;
    let mut v = v;
    let mut k = e;
    while k > 0
        invariant
            fx_ok(v as int),
            0 <= k,
            pow10_div(v as int, k as int) == pow10_div(v0, e as int),
        decreases k,
    {
        proof {
            assert(pow10_div(v as int, k as int) == pow10_div((v as int) / 10, k - 1));
            crate::fixed::lemma_div_abs_bound(v as int, 10, crate::fixed::FX_MAX as int);
        }
        v = crate::fixed::fx_div_floor(v, 10);
        k = k - 1;
    }
    v
}

} // verus!
