//! Colors, the pixel canvas, and its plain-text image encoding.

use vstd::prelude::*;
use vstd::string::*;
use vstd::arithmetic::power2::*;
use vstd::bits::lemma_u64_shr_is_div;
use vstd::arithmetic::div_mod::*;
use vstd::arithmetic::mul::lemma_mul_inequality;
use crate::scalar::{Scalar, FRACTIONS};
use crate::vector::ONE;

verus! {

/// Red, green, blue and an opacity that is always one.
#[derive(Clone, Copy, Debug)]
pub struct Color(Scalar, Scalar, Scalar, Scalar);

/// The whole part of 256 times a number: the greatest integer that is not
/// more. The value of a number counts it in the smallest positive number,
/// of which one holds two to the 1074th.
pub open spec fn whole_of_256_times(s: Scalar) -> int {
    (256 * s.value()) / (pow2(1074) as int)
}

/// The level, from 0 to 255, at which a channel of strength `s` is written
/// to an image: the whole part of `256 * s`, kept within 0 and 255. What
/// is not a number is 0.
pub open spec fn level(s: Scalar) -> int {
    if s.nan() {
        0
    } else if whole_of_256_times(s) < 0 {
        0
    } else if whole_of_256_times(s) > 255 {
        255
    } else {
        whole_of_256_times(s)
    }
}

/// For a number whose exponent field is `e` and whose fraction under its
/// leading bit is `sig`, the whole part of 256 times the number is `sig`
/// without its last `1067 - e` binary digits.
proof fn lemma_whole_part(sig: int, e: int)
    requires
        0 <= sig,
        1 <= e <= 1066,
    ensures
        (256 * (sig * pow2((e - 1) as nat))) / (pow2(1074) as int) == sig / (pow2((1067 - e) as nat) as int),
{
    let low = pow2((e - 1) as nat) as int;
    let high = pow2((1067 - e) as nat) as int;
    lemma2_to64();
    lemma_pow2_pos((e - 1) as nat);
    lemma_pow2_pos((1067 - e) as nat);
    lemma_pow2_adds(8, (e - 1) as nat);
    lemma_pow2_adds((e + 7) as nat, (1067 - e) as nat);
    assert(pow2(1074) == (256 * low) * high);
    assert(256 * (sig * low) == (256 * low) * sig) by (nonlinear_arith);
    lemma_div_multiples_vanish_quotient(256 * low, sig, high);
}

/// A stronger channel is never written at a lower level.
pub proof fn law_level_grows_with_strength(a: Scalar, b: Scalar)
    requires
        a.at_most(b),
    ensures
        level(a) <= level(b),
{
    crate::scalar::law_order_is_by_value(a, b);
    lemma_pow2_pos(1074);
    lemma_div_is_ordered(256 * a.value(), 256 * b.value(), pow2(1074) as int);
}

/// Computes [`level`].
pub fn quantize(s: Scalar) -> (r: u8)
    ensures
        r == level(s),
{
    if s.is_nan() {
        return 0;
    }
    if s.is_sign_negative() {
        proof {
            crate::scalar::law_order_is_by_value(s, Scalar { bits: 0 });
            lemma_pow2_pos(1074);
            lemma_div_is_ordered(256 * s.value(), 0, pow2(1074) as int);
        }
        return 0;
    }
    let m: u64 = s.to_bits();
    let e: u64 = m / FRACTIONS;
    let f: u64 = m % FRACTIONS;
    proof {
        lemma2_to64();
        lemma2_to64_rest();
    }
    if e >= 1067 {
        proof {
            let sig = FRACTIONS + f;
            let p = pow2((e - 1) as nat) as int;
            let q = pow2(1066) as int;
            lemma_pow2_pos(1066);
            lemma_pow2_adds(8, 1066);
            if e > 1067 {
                lemma_pow2_strictly_increases(1066, (e - 1) as nat);
            }
            lemma_mul_inequality(q, p, sig as int);
            lemma_mul_inequality(FRACTIONS as int, sig as int, q);
            assert(sig * p >= FRACTIONS * q) by (nonlinear_arith)
                requires
                    q * sig <= p * sig,
                    FRACTIONS * q <= sig * q,
            ;
            lemma_div_multiples_vanish_quotient(256, sig * p, q);
            lemma_div_is_ordered(FRACTIONS * q, sig * p, q);
            lemma_div_by_multiple(FRACTIONS as int, q);
        }
        255
    } else if e < 1015 {
        proof {
            if e == 0 {
                lemma_whole_part(f as int, 1);
                assert(f * pow2(0) == f) by (nonlinear_arith)
                    requires
                        pow2(0) == 1,
                ;
                lemma_pow2_strictly_increases(52, 1066);
                lemma_basic_div(f as int, pow2(1066) as int);
            } else {
                lemma_whole_part((FRACTIONS + f) as int, e as int);
                if e < 1014 {
                    lemma_pow2_strictly_increases(53, (1067 - e) as nat);
                }
                lemma_basic_div((FRACTIONS + f) as int, pow2((1067 - e) as nat) as int);
            }
        }
        0
    } else {
        let shift: u64 = 1067 - e;
        let q: u64 = (FRACTIONS + f) >> shift;
        proof {
            lemma_u64_shr_is_div((FRACTIONS + f) as u64, shift);
            lemma_whole_part((FRACTIONS + f) as int, e as int);
        }
        if q > 255 {
            255
        } else {
            q as u8
        }
    }
}

impl Color {
    pub closed spec fn red_spec(self) -> Scalar {
        self.0
    }

    pub closed spec fn green_spec(self) -> Scalar {
        self.1
    }

    pub closed spec fn blue_spec(self) -> Scalar {
        self.2
    }

    pub closed spec fn alpha_spec(self) -> Scalar {
        self.3
    }

    /// The color with the given channels and full opacity.
    pub closed spec fn of(r: Scalar, g: Scalar, b: Scalar) -> Color {
        Color(r, g, b, Scalar { bits: ONE })
    }

    /// A color is its three channels; its opacity is one.
    pub proof fn law_color_is_its_channels(r: Scalar, g: Scalar, b: Scalar)
        ensures
            Color::of(r, g, b).red_spec() == r,
            Color::of(r, g, b).green_spec() == g,
            Color::of(r, g, b).blue_spec() == b,
            Color::of(r, g, b).alpha_spec() == (Scalar { bits: ONE }),
    {
    }

    /// Black: no red, no green, no blue.
    pub open spec fn black_spec() -> Color {
        Color::of(Scalar { bits: 0 }, Scalar { bits: 0 }, Scalar { bits: 0 })
    }

    pub fn new(r: Scalar, g: Scalar, b: Scalar) -> (c: Color)
        ensures
            c == Color::of(r, g, b),
    {
        Color(r, g, b, Scalar { bits: ONE })
    }

    pub fn black() -> (c: Color)
        ensures
            c == Color::black_spec(),
    {
        Color(Scalar { bits: 0 }, Scalar { bits: 0 }, Scalar { bits: 0 }, Scalar { bits: ONE })
    }

    pub fn white() -> (c: Color)
        ensures
            c == Color::of(Scalar { bits: ONE }, Scalar { bits: ONE }, Scalar { bits: ONE }),
    {
        Color(Scalar { bits: ONE }, Scalar { bits: ONE }, Scalar { bits: ONE }, Scalar { bits: ONE })
    }

    pub fn red(&self) -> (r: Scalar)
        ensures
            r == self.red_spec(),
    {
        self.0
    }

    pub fn green(&self) -> (r: Scalar)
        ensures
            r == self.green_spec(),
    {
        self.1
    }

    pub fn blue(&self) -> (r: Scalar)
        ensures
            r == self.blue_spec(),
    {
        self.2
    }

    pub fn rgb(&self) -> (r: (Scalar, Scalar, Scalar))
        ensures
            r == (self.red_spec(), self.green_spec(), self.blue_spec()),
    {
        (self.0, self.1, self.2)
    }

    pub fn red_255(&self) -> (r: u8)
        ensures
            r == level(self.red_spec()),
    {
        quantize(self.0)
    }

    pub fn green_255(&self) -> (r: u8)
        ensures
            r == level(self.green_spec()),
    {
        quantize(self.1)
    }

    pub fn blue_255(&self) -> (r: u8)
        ensures
            r == level(self.blue_spec()),
    {
        quantize(self.2)
    }

    pub fn rgb_255(&self) -> (r: (u8, u8, u8))
        ensures
            r.0 == level(self.red_spec()),
            r.1 == level(self.green_spec()),
            r.2 == level(self.blue_spec()),
    {
        (self.red_255(), self.green_255(), self.blue_255())
    }
}

impl From<[Scalar; 3]> for Color {
    fn from(value: [Scalar; 3]) -> (c: Color)
    {
        Color(value[0], value[1], value[2], Scalar { bits: ONE })
    }
}

impl vstd::std_specs::convert::FromSpecImpl<[Scalar; 3]> for Color {
    open spec fn obeys_from_spec() -> bool {
        true
    }

    open spec fn from_spec(value: [Scalar; 3]) -> Color {
        Color::of(value[0], value[1], value[2])
    }
}

/// The decimal digit for a number below ten.
pub open spec fn digit(d: nat) -> char {
    if d == 0 {
        '0'
    } else if d == 1 {
        '1'
    } else if d == 2 {
        '2'
    } else if d == 3 {
        '3'
    } else if d == 4 {
        '4'
    } else if d == 5 {
        '5'
    } else if d == 6 {
        '6'
    } else if d == 7 {
        '7'
    } else if d == 8 {
        '8'
    } else {
        '9'
    }
}

/// A number written in decimal, without leading zeros.
pub open spec fn decimal(n: nat) -> Seq<char>
    decreases n,
{
    if n < 10 {
        seq![digit(n)]
    } else {
        decimal(n / 10).push(digit(n % 10))
    }
}

/// One pixel of an image's text: its three levels, each followed by a space.
pub open spec fn pixel_text(c: Color) -> Seq<char> {
    decimal(level(c.red_spec()) as nat).push(' ') + decimal(level(c.green_spec()) as nat).push(' ')
        + decimal(level(c.blue_spec()) as nat).push(' ')
}

/// The pixels of a row, one after the other.
pub open spec fn pixels_text(row: Seq<Color>) -> Seq<char>
    decreases row.len(),
{
    if row.len() == 0 {
        Seq::empty()
    } else {
        pixels_text(row.drop_last()) + pixel_text(row.last())
    }
}

/// The rows of an image, each closed by a line feed.
pub open spec fn rows_text(rows: Seq<Seq<Color>>) -> Seq<char>
    decreases rows.len(),
{
    if rows.len() == 0 {
        Seq::empty()
    } else {
        rows_text(rows.drop_last()) + pixels_text(rows.last()).push('\n')
    }
}

/// An image as plain text: the magic word `P3`, width and height, the
/// highest level 255, then the rows from the top.
pub open spec fn ppm_text(width: nat, height: nat, rows: Seq<Seq<Color>>) -> Seq<char> {
    "P3\n"@ + decimal(width) + " "@ + decimal(height) + "\n255\n"@ + rows_text(rows)
}

fn digit_str(d: u64) -> (s: &'static str)
    requires
        d < 10,
    ensures
        s@ == seq![digit(d as nat)],
{
    proof {
        reveal_strlit("0");
        reveal_strlit("1");
        reveal_strlit("2");
        reveal_strlit("3");
        reveal_strlit("4");
        reveal_strlit("5");
        reveal_strlit("6");
        reveal_strlit("7");
        reveal_strlit("8");
        reveal_strlit("9");
    }
    let s = if d == 0 {
        "0"
    } else if d == 1 {
        "1"
    } else if d == 2 {
        "2"
    } else if d == 3 {
        "3"
    } else if d == 4 {
        "4"
    } else if d == 5 {
        "5"
    } else if d == 6 {
        "6"
    } else if d == 7 {
        "7"
    } else if d == 8 {
        "8"
    } else {
        "9"
    };
    assert(s@ =~= seq![digit(d as nat)]);
    s
}

fn push_decimal(text: &mut String, n: u64)
    ensures
        final(text)@ == old(text)@ + decimal(n as nat),
    decreases n,
{
    if n >= 10 {
        push_decimal(text, n / 10);
    }
    text.append(digit_str(n % 10));
    assert(text@ =~= old(text)@ + decimal(n as nat));
}

fn push_pixel(text: &mut String, c: &Color)
    ensures
        final(text)@ == old(text)@ + pixel_text(*c),
{
    proof {
        reveal_strlit(" ");
    }
    push_decimal(text, c.red_255() as u64);
    text.append(" ");
    push_decimal(text, c.green_255() as u64);
    text.append(" ");
    push_decimal(text, c.blue_255() as u64);
    text.append(" ");
    assert(text@ =~= old(text)@ + pixel_text(*c));
}

/// The rows of `grid` after the pixel at the place that `position` stands
/// for was painted `color`; a place off the grid paints nothing.
pub open spec fn painted(grid: Seq<Seq<Color>>, position: (Scalar, Scalar), color: Color) -> Seq<Seq<Color>> {
    let x = position.0.place();
    let y = position.1.place();
    if y < grid.len() && x < grid[y].len() {
        grid.update(y, grid[y].update(x, color))
    } else {
        grid
    }
}

/// A grid of pixels, `width` across and `height` down, with its top left
/// corner at `(0, 0)`.
pub struct Canvas {
    pub width: u64,
    pub height: u64,
    data: Vec<Vec<Color>>,
}

impl View for Canvas {
    type V = Seq<Seq<Color>>;

    /// The rows from the top, each from the left.
    closed spec fn view(&self) -> Seq<Seq<Color>> {
        Seq::new(self.data@.len(), |y: int| self.data@[y]@)
    }
}

impl Canvas {
    /// What the field `width` holds.
    pub closed spec fn width_spec(&self) -> u64 {
        self.width
    }

    /// What the field `height` holds.
    pub closed spec fn height_spec(&self) -> u64 {
        self.height
    }

    /// There are `height` rows of `width` pixels each.
    pub open spec fn wf(&self) -> bool {
        &&& self@.len() == self.height_spec()
        &&& forall|y: int| 0 <= y < self@.len() ==> (#[trigger] self@[y]).len() == self.width_spec()
    }

    /// A canvas of the given size, black all over.
    pub fn new(width: u64, height: u64) -> (canvas: Canvas)
        ensures
            canvas.wf(),
            canvas.width_spec() == width,
            canvas.height_spec() == height,
            forall|x: int, y: int|
                0 <= x < width && 0 <= y < height ==> #[trigger] canvas@[y][x] == Color::black_spec(),
    {
        let mut data: Vec<Vec<Color>> = Vec::new();
        let mut y: u64 = 0;
        while y < height
            invariant
                y <= height,
                data@.len() == y,
                forall|j: int| 0 <= j < y ==> (#[trigger] data@[j])@.len() == width,
                forall|i: int, j: int|
                    0 <= i < width && 0 <= j < y ==> #[trigger] data@[j]@[i] == Color::black_spec(),
            decreases height - y,
        {
            let mut row: Vec<Color> = Vec::new();
            let mut x: u64 = 0;
            while x < width
                invariant
                    x <= width,
                    row@.len() == x,
                    forall|i: int| 0 <= i < x ==> #[trigger] row@[i] == Color::black_spec(),
                decreases width - x,
            {
                row.push(Color::black());
                x += 1;
            }
            data.push(row);
            y += 1;
        }
        Canvas { width, height, data }
    }

    /// The canvas has a pixel at `position`, `(x, y)`.
    pub open spec fn holds(&self, position: (usize, usize)) -> bool {
        position.1 < self@.len() && position.0 < self@[position.1 as int].len()
    }

    /// Paints the pixel at `position`, `(x, y)`, where the canvas has one;
    /// a position off the canvas is passed over.
    pub fn write_pixel(&mut self, position: (usize, usize), color: &Color)
        ensures
            final(self).width_spec() == old(self).width_spec(),
            final(self).height_spec() == old(self).height_spec(),
            old(self).holds(position) ==> final(self)@ == old(self)@.update(
                position.1 as int,
                old(self)@[position.1 as int].update(position.0 as int, *color),
            ),
            !old(self).holds(position) ==> final(self)@ == old(self)@,
            old(self).wf() ==> final(self).wf(),
    {
        let (x, y) = position;
        if y < self.data.len() {
            if x < self.data[y].len() {
                self.data[y][x] = *color;
                assert(self@ =~= old(self)@.update(y as int, old(self)@[y as int].update(x as int, *color)));
                return;
            }
        }
        assert(self@ =~= old(self)@);
    }

    /// Paints the pixel at the place that two numbers stand for, where the
    /// canvas has one; see [`Scalar::place`].
    ///
    /// To draw a point `(x, y)` of a plane whose origin is the bottom left
    /// corner, scaled by the aspect ratio of the canvas, hand in
    /// `(x * aspect, height - y * aspect)`.
    pub fn write_pixel_with_aspect_ratio(&mut self, position: (Scalar, Scalar), color: &Color)
        ensures
            final(self).width_spec() == old(self).width_spec(),
            final(self).height_spec() == old(self).height_spec(),
            final(self)@ == painted(old(self)@, position, *color),
            old(self).wf() ==> final(self).wf(),
    {
        self.write_pixel((position.0.to_index(), position.1.to_index()), color);
    }

    /// The pixel at `position`, `(x, y)`.
    pub fn pixel_at(&self, position: (usize, usize)) -> (color: &Color)
        requires
            self.holds(position),
        ensures
            *color == self@[position.1 as int][position.0 as int],
    {
        let (x, y) = position;
        &self.data[y][x]
    }

    /// The canvas as the text of a plain PPM image.
    pub fn to_ppm(&self) -> (ppm: String)
        ensures
            ppm@ == ppm_text(self.width_spec() as nat, self.height_spec() as nat, self@),
    {
        let mut ppm = String::new();
        ppm.append("P3\n");
        push_decimal(&mut ppm, self.width);
        ppm.append(" ");
        push_decimal(&mut ppm, self.height);
        ppm.append("\n255\n");
        let ghost head = ppm@;
        assert(head =~= "P3\n"@ + decimal(self.width as nat) + " "@ + decimal(self.height as nat) + "\n255\n"@);
        let mut y: usize = 0;
        assert(self@.take(0) =~= Seq::empty());
        while y < self.data.len()
            invariant
                y <= self.data@.len(),
                ppm@ == head + rows_text(self@.take(y as int)),
            decreases self.data@.len() - y,
        {
            let ghost before = ppm@;
            let mut x: usize = 0;
            assert(self@[y as int].take(0) =~= Seq::empty());
            while x < self.data[y].len()
                invariant
                    y < self.data@.len(),
                    x <= self.data@[y as int]@.len(),
                    ppm@ == before + pixels_text(self@[y as int].take(x as int)),
                decreases self.data@[y as int]@.len() - x,
            {
                push_pixel(&mut ppm, &self.data[y][x]);
                proof {
                    let row = self@[y as int];
                    assert(row.take(x + 1).drop_last() =~= row.take(x as int));
                    assert(row.take(x + 1).last() == row[x as int]);
                }
                x += 1;
            }
            proof {
                reveal_strlit("\n");
                assert(self@[y as int].take(x as int) =~= self@[y as int]);
                assert(self@.take(y + 1).drop_last() =~= self@.take(y as int));
                assert(self@.take(y + 1).last() == self@[y as int]);
            }
            ppm.append("\n");
            assert(ppm@ =~= head + rows_text(self@.take(y + 1)));
            y += 1;
        }
        assert(self@.take(y as int) =~= self@);
        ppm
    }
}

} // verus!
