//! Colors: four fixed-point channels and the operations that compose light.

use crate::scalar::{
    clamp_raw, lemma_quot_bounds, lemma_quot_size, quot, wide_mul, wide_quot, Scalar, SCALE,
};
use crate::text::{decimal, decimal_text, signed_decimal, signed_decimal_text};
use vstd::prelude::*;

verus! {

/// A color with an opacity. One is full intensity; composition may go
/// beyond it, and only the written pixel is capped.
#[derive(Clone, Copy, Debug, PartialEq, Eq, Structural)]
pub struct Color {
    pub red: Scalar,
    pub green: Scalar,
    pub blue: Scalar,
    pub alpha: Scalar,
}

impl Color {
    /// Opaque white: every channel one.
    pub open spec fn white_spec() -> Color {
        Color {
            red: Scalar::one_spec(),
            green: Scalar::one_spec(),
            blue: Scalar::one_spec(),
            alpha: Scalar::one_spec(),
        }
    }

    /// Opaque black.
    pub open spec fn black_spec() -> Color {
        Color {
            red: Scalar::zero_spec(),
            green: Scalar::zero_spec(),
            blue: Scalar::zero_spec(),
            alpha: Scalar::one_spec(),
        }
    }

    /// No light at all: every channel zero, the opacity too.
    pub open spec fn zero_spec() -> Color {
        Color {
            red: Scalar::zero_spec(),
            green: Scalar::zero_spec(),
            blue: Scalar::zero_spec(),
            alpha: Scalar::zero_spec(),
        }
    }

    /// Channel `k` as a count of steps: red, green, blue, then opacity.
    pub open spec fn channel(self, k: int) -> int {
        if k == 0 {
            self.red@
        } else if k == 1 {
            self.green@
        } else if k == 2 {
            self.blue@
        } else {
            self.alpha@
        }
    }

    /// The exact sum of channel `k` over `colors`.
    pub open spec fn channel_sum(colors: Seq<Color>, k: int) -> int
        decreases colors.len(),
    {
        if colors.len() == 0 {
            0
        } else {
            Color::channel_sum(colors.drop_last(), k) + colors.last().channel(k)
        }
    }

    /// The average of `colors`: each channel is the exact sum divided by
    /// the count, rounded toward zero. Of no colors it is all zero.
    pub open spec fn medium_spec(colors: Seq<Color>) -> Color {
        if colors.len() == 0 {
            Color::zero_spec()
        } else {
            Color {
                red: Scalar::of(quot(Color::channel_sum(colors, 0), colors.len() as int)),
                green: Scalar::of(quot(Color::channel_sum(colors, 1), colors.len() as int)),
                blue: Scalar::of(quot(Color::channel_sum(colors, 2), colors.len() as int)),
                alpha: Scalar::of(quot(Color::channel_sum(colors, 3), colors.len() as int)),
            }
        }
    }

    /// The product with `other`, channel by channel.
    pub open spec fn mixed_with(self, other: Color) -> Color {
        Color {
            red: self.red.times(other.red),
            green: self.green.times(other.green),
            blue: self.blue.times(other.blue),
            alpha: self.alpha.times(other.alpha),
        }
    }

    /// White multiplied by each of `colors` in turn.
    pub open spec fn mix_spec(colors: Seq<Color>) -> Color
        decreases colors.len(),
    {
        if colors.len() == 0 {
            Color::white_spec()
        } else {
            Color::mix_spec(colors.drop_last()).mixed_with(colors.last())
        }
    }

    /// The color channels taken from one; the opacity stays.
    pub open spec fn inverse_spec(&self) -> Color {
        Color {
            red: Scalar::one_spec().minus(self.red),
            green: Scalar::one_spec().minus(self.green),
            blue: Scalar::one_spec().minus(self.blue),
            alpha: self.alpha,
        }
    }

    /// The sum, channel by channel.
    pub open spec fn plus(self, rhs: Color) -> Color {
        Color {
            red: self.red.plus(rhs.red),
            green: self.green.plus(rhs.green),
            blue: self.blue.plus(rhs.blue),
            alpha: self.alpha.plus(rhs.alpha),
        }
    }

    /// The difference, channel by channel, and no channel below zero.
    pub open spec fn minus(self, rhs: Color) -> Color {
        Color {
            red: self.red.minus(rhs.red).max_spec(Scalar::zero_spec()),
            green: self.green.minus(rhs.green).max_spec(Scalar::zero_spec()),
            blue: self.blue.minus(rhs.blue).max_spec(Scalar::zero_spec()),
            alpha: self.alpha.minus(rhs.alpha).max_spec(Scalar::zero_spec()),
        }
    }

    /// Each channel multiplied by `rhs`, and no channel below zero.
    pub open spec fn times(self, rhs: Scalar) -> Color {
        Color {
            red: self.red.times(rhs).max_spec(Scalar::zero_spec()),
            green: self.green.times(rhs).max_spec(Scalar::zero_spec()),
            blue: self.blue.times(rhs).max_spec(Scalar::zero_spec()),
            alpha: self.alpha.times(rhs).max_spec(Scalar::zero_spec()),
        }
    }

    /// Each channel divided by `rhs`, which is not zero, and no channel
    /// below zero.
    pub open spec fn over(self, rhs: Scalar) -> Color {
        Color {
            red: self.red.over(rhs).max_spec(Scalar::zero_spec()),
            green: self.green.over(rhs).max_spec(Scalar::zero_spec()),
            blue: self.blue.over(rhs).max_spec(Scalar::zero_spec()),
            alpha: self.alpha.over(rhs).max_spec(Scalar::zero_spec()),
        }
    }

    /// No channel is below zero.
    pub open spec fn is_not_negative(self) -> bool {
        self.red@ >= 0 && self.green@ >= 0 && self.blue@ >= 0 && self.alpha@ >= 0
    }

    /// What could take a channel below zero stops at zero: a difference,
    /// and a product or a quotient with a number. Sums and products of
    /// colors that are not negative are not negative either.
    pub proof fn lemma_never_below_zero(self, other: Color, factor: Scalar)
        ensures
            self.minus(other).is_not_negative(),
            self.times(factor).is_not_negative(),
            self.over(factor).is_not_negative(),
            self.is_not_negative() && other.is_not_negative() ==> self.plus(
                other,
            ).is_not_negative() && self.mixed_with(other).is_not_negative(),
    {
        if self.is_not_negative() && other.is_not_negative() {
            assert(self.red@ * other.red@ >= 0 && self.green@ * other.green@ >= 0 && self.blue@
                * other.blue@ >= 0 && self.alpha@ * other.alpha@ >= 0) by (nonlinear_arith)
                requires
                    self.red@ >= 0 && self.green@ >= 0 && self.blue@ >= 0 && self.alpha@ >= 0,
                    other.red@ >= 0 && other.green@ >= 0 && other.blue@ >= 0 && other.alpha@ >= 0,
            ;
            lemma_quot_bounds(self.red@ * other.red@, SCALE as int);
            lemma_quot_bounds(self.green@ * other.green@, SCALE as int);
            lemma_quot_bounds(self.blue@ * other.blue@, SCALE as int);
            lemma_quot_bounds(self.alpha@ * other.alpha@, SCALE as int);
        }
    }

    /// The level from 0 to 255 at which a channel is written: 255 times
    /// the channel, rounded toward zero, and kept within the two ends.
    pub open spec fn level(c: Scalar) -> nat {
        let l: int = quot(c@ * 255, SCALE as int);
        if l < 0 {
            0
        } else if l > 255 {
            255
        } else {
            l as nat
        }
    }

    /// 255 times a channel, rounded toward zero.
    pub open spec fn open_level(c: Scalar) -> int {
        quot(c@ * 255, SCALE as int)
    }

    /// The three color levels as they stand, with one space between them.
    pub open spec fn text(&self) -> Seq<char> {
        signed_decimal(Color::open_level(self.red)).push(' ') + signed_decimal(
            Color::open_level(self.green),
        ).push(' ') + signed_decimal(Color::open_level(self.blue))
    }

    /// The three color levels in decimal, with one space between them.
    pub open spec fn pbm_spec(&self) -> Seq<char> {
        decimal(Color::level(self.red)).push(' ') + decimal(Color::level(self.green)).push(' ')
            + decimal(Color::level(self.blue))
    }

    /// Opaque white.
    #[verifier::when_used_as_spec(white_spec)]
    pub fn white() -> (r: Color)
        ensures
            r == Color::white_spec(),
    {
        Color { red: Scalar::one(), green: Scalar::one(), blue: Scalar::one(), alpha: Scalar::one() }
    }

    /// Opaque black.
    #[verifier::when_used_as_spec(black_spec)]
    pub fn black() -> (r: Color)
        ensures
            r == Color::black_spec(),
    {
        Color {
            red: Scalar::zero(),
            green: Scalar::zero(),
            blue: Scalar::zero(),
            alpha: Scalar::one(),
        }
    }

    /// No light at all: every channel zero, the opacity too.
    #[verifier::when_used_as_spec(zero_spec)]
    pub fn zero() -> (r: Color)
        ensures
            r == Color::zero_spec(),
    {
        Color {
            red: Scalar::zero(),
            green: Scalar::zero(),
            blue: Scalar::zero(),
            alpha: Scalar::zero(),
        }
    }

    /// The color with the four channels.
    pub fn from(red: Scalar, green: Scalar, blue: Scalar, alpha: Scalar) -> (r: Color)
        ensures
            r == (Color { red, green, blue, alpha }),
    {
        Color { red, green, blue, alpha }
    }

    /// The product of two colors, channel by channel.
    fn mixed(self, other: Color) -> (r: Color)
        ensures
            r == self.mixed_with(other),
    {
        Color {
            red: self.red * other.red,
            green: self.green * other.green,
            blue: self.blue * other.blue,
            alpha: self.alpha * other.alpha,
        }
    }

    /// The average of `colors`.
    pub fn medium_of(colors: Vec<Color>) -> (r: Color)
        ensures
            r == Color::medium_spec(colors@),
    {
        let n: usize = colors.len();
        if n == 0 {
            return Color::zero();
        }
        let mut red: i128 = 0;
        let mut green: i128 = 0;
        let mut blue: i128 = 0;
        let mut alpha: i128 = 0;
        let mut i: usize = 0;
        while i < n
            invariant
                n == colors.len(),
                i <= n,
                red == Color::channel_sum(colors@.take(i as int), 0),
                green == Color::channel_sum(colors@.take(i as int), 1),
                blue == Color::channel_sum(colors@.take(i as int), 2),
                alpha == Color::channel_sum(colors@.take(i as int), 3),
                -(i * 0x8000_0000_0000_0000) <= red <= i * 0x8000_0000_0000_0000,
                -(i * 0x8000_0000_0000_0000) <= green <= i * 0x8000_0000_0000_0000,
                -(i * 0x8000_0000_0000_0000) <= blue <= i * 0x8000_0000_0000_0000,
                -(i * 0x8000_0000_0000_0000) <= alpha <= i * 0x8000_0000_0000_0000,
            decreases n - i,
        {
            let c: Color = colors[i];
            proof {
                assert(colors@.take(i + 1).drop_last() =~= colors@.take(i as int));
            }
            red = red + c.red.raw as i128;
            green = green + c.green.raw as i128;
            blue = blue + c.blue.raw as i128;
            alpha = alpha + c.alpha.raw as i128;
            i = i + 1;
        }
        proof {
            assert(colors@.take(n as int) =~= colors@);
        }
        let count: i128 = n as i128;
        let r: Color = Color {
            red: Scalar { raw: clamp_raw(wide_quot(red, count)) },
            green: Scalar { raw: clamp_raw(wide_quot(green, count)) },
            blue: Scalar { raw: clamp_raw(wide_quot(blue, count)) },
            alpha: Scalar { raw: clamp_raw(wide_quot(alpha, count)) },
        };
        r
    }

    /// The product of `colors`, channel by channel, starting from white.
    pub fn mix_of(colors: Vec<Color>) -> (r: Color)
        ensures
            r == Color::mix_spec(colors@),
    {
        let mut acc: Color = Color::white();
        let mut i: usize = 0;
        while i < colors.len()
            invariant
                i <= colors.len(),
                acc == Color::mix_spec(colors@.take(i as int)),
            decreases colors.len() - i,
        {
            proof {
                assert(colors@.take(i + 1).drop_last() =~= colors@.take(i as int));
            }
            acc = acc.mixed(colors[i]);
            i = i + 1;
        }
        proof {
            assert(colors@.take(colors.len() as int) =~= colors@);
        }
        acc
    }

    /// The complementary color, with the same opacity.
    #[verifier::when_used_as_spec(inverse_spec)]
    pub fn inverse(&self) -> (r: Color)
        ensures
            r == self.inverse_spec(),
    {
        Color::from(
            Scalar::one() - self.red,
            Scalar::one() - self.green,
            Scalar::one() - self.blue,
            self.alpha,
        )
    }

    /// The level from 0 to 255 at which a channel is written.
    fn level_of(c: Scalar) -> (r: u64)
        ensures
            r == Color::level(c),
    {
        let l: i128 = wide_quot(wide_mul(c.raw, 255), SCALE as i128);
        if l < 0 {
            0
        } else if l > 255 {
            255
        } else {
            l as u64
        }
    }

    /// The three color levels as they stand, neither capped nor kept above
    /// zero, in decimal with one space between them.
    pub fn to_text(&self) -> (r: String)
        ensures
            r@ == self.text(),
    {
        proof {
            reveal_strlit(" ");
        }
        let mut r: String = signed_decimal_text(Color::open_level_of(self.red));
        r.append(" ");
        let green: String = signed_decimal_text(Color::open_level_of(self.green));
        r.append(green.as_str());
        r.append(" ");
        let blue: String = signed_decimal_text(Color::open_level_of(self.blue));
        r.append(blue.as_str());
        assert(r@ =~= self.text());
        r
    }

    /// 255 times a channel, rounded toward zero.
    fn open_level_of(c: Scalar) -> (r: i128)
        ensures
            r == Color::open_level(c),
            -0x8000_0000_0000_0000 <= r <= 0x8000_0000_0000_0000,
    {
        let r: i128 = wide_quot(wide_mul(c.raw, 255), SCALE as i128);
        proof {
            lemma_quot_size(c@ * 255, SCALE as int, 0x8000_0000_0000_0000int);
        }
        r
    }

    /// The color as one pixel of a plain-text pixmap.
    pub fn as_pbm_color(&self) -> (r: String)
        ensures
            r@ == self.pbm_spec(),
    {
        proof {
            reveal_strlit(" ");
        }
        let mut r: String = decimal_text(Color::level_of(self.red));
        r.append(" ");
        let green: String = decimal_text(Color::level_of(self.green));
        r.append(green.as_str());
        r.append(" ");
        let blue: String = decimal_text(Color::level_of(self.blue));
        r.append(blue.as_str());
        assert(r@ =~= self.pbm_spec());
        r
    }
}

impl vstd::std_specs::ops::AddSpecImpl for Color {
    open spec fn obeys_add_spec() -> bool {
        true
    }

    open spec fn add_req(self, rhs: Color) -> bool {
        true
    }

    open spec fn add_spec(self, rhs: Color) -> Color {
        self.plus(rhs)
    }
}

impl core::ops::Add for Color {
    type Output = Color;

    fn add(self, rhs: Color) -> (r: Color) {
        Color {
            red: self.red + rhs.red,
            green: self.green + rhs.green,
            blue: self.blue + rhs.blue,
            alpha: self.alpha + rhs.alpha,
        }
    }
}

impl vstd::std_specs::ops::SubSpecImpl for Color {
    open spec fn obeys_sub_spec() -> bool {
        true
    }

    open spec fn sub_req(self, rhs: Color) -> bool {
        true
    }

    open spec fn sub_spec(self, rhs: Color) -> Color {
        self.minus(rhs)
    }
}

impl core::ops::Sub for Color {
    type Output = Color;

    fn sub(self, rhs: Color) -> (r: Color) {
        Color {
            red: (self.red - rhs.red).max(Scalar::zero()),
            green: (self.green - rhs.green).max(Scalar::zero()),
            blue: (self.blue - rhs.blue).max(Scalar::zero()),
            alpha: (self.alpha - rhs.alpha).max(Scalar::zero()),
        }
    }
}

impl vstd::std_specs::ops::MulSpecImpl<Scalar> for Color {
    open spec fn obeys_mul_spec() -> bool {
        true
    }

    open spec fn mul_req(self, rhs: Scalar) -> bool {
        true
    }

    open spec fn mul_spec(self, rhs: Scalar) -> Color {
        self.times(rhs)
    }
}

impl core::ops::Mul<Scalar> for Color {
    type Output = Color;

    fn mul(self, rhs: Scalar) -> (r: Color) {
        Color {
            red: (self.red * rhs).max(Scalar::zero()),
            green: (self.green * rhs).max(Scalar::zero()),
            blue: (self.blue * rhs).max(Scalar::zero()),
            alpha: (self.alpha * rhs).max(Scalar::zero()),
        }
    }
}

impl vstd::std_specs::ops::DivSpecImpl<Scalar> for Color {
    open spec fn obeys_div_spec() -> bool {
        true
    }

    /// Nothing is divided by zero.
    open spec fn div_req(self, rhs: Scalar) -> bool {
        rhs@ != 0
    }

    open spec fn div_spec(self, rhs: Scalar) -> Color {
        self.over(rhs)
    }
}

impl core::ops::Div<Scalar> for Color {
    type Output = Color;

    fn div(self, rhs: Scalar) -> (r: Color) {
        Color {
            red: (self.red / rhs).max(Scalar::zero()),
            green: (self.green / rhs).max(Scalar::zero()),
            blue: (self.blue / rhs).max(Scalar::zero()),
            alpha: (self.alpha / rhs).max(Scalar::zero()),
        }
    }
}

} // verus!
