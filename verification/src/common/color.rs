//! 8-bit sRGB colours.

use core::ops::{Add, AddAssign, Sub, SubAssign};
use vstd::prelude::*;
use vstd::std_specs::ops::{AddSpecImpl, SubSpecImpl};
use vstd::string::StringExecFns;

verus! {

/// An 8-bit RGB colour.
#[derive(Debug, Clone, Copy, PartialEq, Eq, Structural)]
pub struct Color {
    pub r: u8,
    pub g: u8,
    pub b: u8,
}

/// `a + b`, saturating at 255.
pub open spec fn sat_add(a: u8, b: u8) -> u8 {
    if a + b > 255 {
        255u8
    } else {
        (a + b) as u8
    }
}

/// `a - b`, saturating at 0.
pub open spec fn sat_sub(a: u8, b: u8) -> u8 {
    if a < b {
        0u8
    } else {
        (a - b) as u8
    }
}

/// Channel-wise saturating sum of two colours.
pub open spec fn color_sat_add(a: Color, b: Color) -> Color {
    Color { r: sat_add(a.r, b.r), g: sat_add(a.g, b.g), b: sat_add(a.b, b.b) }
}

/// Channel-wise saturating difference of two colours.
pub open spec fn color_sat_sub(a: Color, b: Color) -> Color {
    Color { r: sat_sub(a.r, b.r), g: sat_sub(a.g, b.g), b: sat_sub(a.b, b.b) }
}

/// The black colour.
pub open spec fn spec_black() -> Color {
    Color { r: 0, g: 0, b: 0 }
}

impl Color {
    /// A colour from its three channels.
    pub fn new(r: u8, g: u8, b: u8) -> (c: Color)
        ensures
            c == (Color { r, g, b }),
    {
        Color { r, g, b }
    }

    /// Black, `rgb(0, 0, 0)`.
    pub fn black() -> (c: Color)
        ensures
            c == spec_black(),
    {
        Color { r: 0, g: 0, b: 0 }
    }
}

/// The decimal digit `d` (`d < 10`) as a character.
pub open spec fn digit_char(d: nat) -> char {
    if d == 0 {
        '0'
    } else if d == 1 {
        '1'
    } else if d == 2 {
        '2'
    } else if d == 3 {
        '3'
    } else if d == 4 {
        '4'
    } else if d == 5 {
        '5'
    } else if d == 6 {
        '6'
    } else if d == 7 {
        '7'
    } else if d == 8 {
        '8'
    } else {
        '9'
    }
}

/// The decimal representation of `n`, without leading zeros.
pub open spec fn decimal(n: nat) -> Seq<char>
    decreases n,
{
    if n < 10 {
        seq![digit_char(n)]
    } else {
        decimal(n / 10) + seq![digit_char(n % 10)]
    }
}

/// The text of a colour: `rgb(r, g, b)` with decimal channels.
pub open spec fn color_text(c: Color) -> Seq<char> {
    "rgb("@ + decimal(c.r as nat) + ", "@ + decimal(c.g as nat) + ", "@ + decimal(c.b as nat) + ")"@
}

/// The decimal digit `d` as a one-character string.
fn digit_str(d: u8) -> (s: &'static str)
    requires
        d < 10,
    ensures
        s@ == seq![digit_char(d as nat)],
{
    proof {
        reveal_strlit("0");
        reveal_strlit("1");
        reveal_strlit("2");
        reveal_strlit("3");
        reveal_strlit("4");
        reveal_strlit("5");
        reveal_strlit("6");
        reveal_strlit("7");
        reveal_strlit("8");
        reveal_strlit("9");
    }
    match d {
        0 => "0",
        1 => "1",
        2 => "2",
        3 => "3",
        4 => "4",
        5 => "5",
        6 => "6",
        7 => "7",
        8 => "8",
        _ => "9",
    }
}

/// Appends the decimal representation of `n` to `out`.
fn push_decimal(out: &mut String, n: u8)
    ensures
        final(out)@ == old(out)@ + decimal(n as nat),
{
    if n >= 100 {
        out.append(digit_str(n / 100));
        out.append(digit_str((n / 10) % 10));
        out.append(digit_str(n % 10));
        proof {
            let hi = (n / 100) as nat;
            let mid = (n / 10) as nat;
            assert(decimal(hi) == seq![digit_char(hi)]);
            assert(mid / 10 == hi);
            assert(decimal(mid) == decimal(hi) + seq![digit_char(mid % 10)]);
            assert(decimal(n as nat) == decimal(mid) + seq![digit_char((n % 10) as nat)]);
            assert(out@ =~= old(out)@ + decimal(n as nat));
        }
    } else if n >= 10 {
        out.append(digit_str(n / 10));
        out.append(digit_str(n % 10));
        proof {
            let hi = (n / 10) as nat;
            assert(decimal(hi) == seq![digit_char(hi)]);
            assert(decimal(n as nat) == decimal(hi) + seq![digit_char((n % 10) as nat)]);
            assert(out@ =~= old(out)@ + decimal(n as nat));
        }
    } else {
        out.append(digit_str(n));
        proof {
            assert(out@ =~= old(out)@ + decimal(n as nat));
        }
    }
}

impl Color {
    /// The colour as text, `rgb(r, g, b)`.
    pub fn to_string(&self) -> (s: String)
        ensures
            s@ == color_text(*self),
    {
        proof {
            reveal_strlit("rgb(");
            reveal_strlit(", ");
            reveal_strlit(")");
        }
        let mut s = String::from_str("rgb(");
        push_decimal(&mut s, self.r);
        s.append(", ");
        push_decimal(&mut s, self.g);
        s.append(", ");
        push_decimal(&mut s, self.b);
        s.append(")");
        proof {
            assert(s@ =~= color_text(*self));
        }
        s
    }
}

impl Default for Color {
    fn default() -> (c: Color)
        ensures
            c == spec_black(),
    {
        Color::black()
    }
}

impl Add for Color {
    type Output = Color;

    fn add(self, other: Color) -> (c: Color) {
        Color {
            r: self.r.saturating_add(other.r),
            g: self.g.saturating_add(other.g),
            b: self.b.saturating_add(other.b),
        }
    }
}

impl AddSpecImpl for Color {
    open spec fn obeys_add_spec() -> bool {
        true
    }

    open spec fn add_req(self, rhs: Color) -> bool {
        true
    }

    open spec fn add_spec(self, rhs: Color) -> Color {
        color_sat_add(self, rhs)
    }
}

impl AddAssign for Color {
    fn add_assign(&mut self, other: Color)
        ensures
            *final(self) == color_sat_add(*old(self), other),
    {
        *self = *self + other;
    }
}

impl Sub for Color {
    type Output = Color;

    fn sub(self, other: Color) -> (c: Color) {
        Color {
            r: self.r.saturating_sub(other.r),
            g: self.g.saturating_sub(other.g),
            b: self.b.saturating_sub(other.b),
        }
    }
}

impl SubSpecImpl for Color {
    open spec fn obeys_sub_spec() -> bool {
        true
    }

    open spec fn sub_req(self, rhs: Color) -> bool {
        true
    }

    open spec fn sub_spec(self, rhs: Color) -> Color {
        color_sat_sub(self, rhs)
    }
}

impl SubAssign for Color {
    fn sub_assign(&mut self, other: Color)
        ensures
            *final(self) == color_sat_sub(*old(self), other),
    {
        *self = *self - other;
    }
}

/// Adding black leaves a colour unchanged, and so does subtracting it.
pub proof fn lemma_black_is_neutral(c: Color)
    ensures
        color_sat_add(c, spec_black()) == c,
        color_sat_add(spec_black(), c) == c,
        color_sat_sub(c, spec_black()) == c,
{
}

/// Saturating addition does not depend on the order of its operands.
pub proof fn lemma_add_commutative(a: Color, b: Color)
    ensures
        color_sat_add(a, b) == color_sat_add(b, a),
{
}

/// A colour minus itself, or minus anything at least as bright in every
/// channel, is black.
pub proof fn lemma_sub_brighter_is_black(a: Color, b: Color)
    requires
        a.r <= b.r,
        a.g <= b.g,
        a.b <= b.b,
    ensures
        color_sat_sub(a, b) == spec_black(),
{
}

/// Saturating addition never darkens a channel and saturating subtraction
/// never brightens one.
pub proof fn lemma_saturating_monotone(a: Color, b: Color)
    ensures
        color_sat_add(a, b).r >= a.r,
        color_sat_add(a, b).g >= a.g,
        color_sat_add(a, b).b >= a.b,
        color_sat_sub(a, b).r <= a.r,
        color_sat_sub(a, b).g <= a.g,
        color_sat_sub(a, b).b <= a.b,
{
}

} // verus!
