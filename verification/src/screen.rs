//! The raster that a picture is painted on.

use crate::color::Color;
use crate::text::{decimal, decimal_text};
use vstd::prelude::*;

verus! {

/// A grid of pixels, kept row by row from the top.
pub struct Screen {
    pixels: Vec<Color>,
    width: usize,
    height: usize,
}

/// Walks over the positions of a screen row by row, from left to right
/// within a row, starting at the top left.
pub struct ScreenPixelPositions {
    pub x: usize,
    pub y: usize,
    pub width: usize,
    pub height: usize,
}

/// The pixels of `pixels` as lines of text, one pixel to a line.
pub open spec fn pixel_lines(pixels: Seq<Color>) -> Seq<char>
    decreases pixels.len(),
{
    if pixels.len() == 0 {
        Seq::empty()
    } else {
        pixel_lines(pixels.drop_last()) + pixels.last().pbm_spec().push('\n')
    }
}

/// A position in a grid `width` wide is the pixel number `width * y + x`,
/// and the other way round.
pub proof fn lemma_position_of_index(width: int, x: int, y: int)
    requires
        0 <= x < width,
        0 <= y,
    ensures
        (width * y + x) % width == x,
        (width * y + x) / width == y,
        y * width + x == width * y + x,
{
    assert(y * width == width * y) by (nonlinear_arith);
    vstd::arithmetic::div_mod::lemma_fundamental_div_mod_converse(width * y + x, width, y, x);
}

/// A position inside a grid has a pixel number inside it.
pub proof fn lemma_index_in_grid(width: int, height: int, x: int, y: int)
    requires
        0 <= x < width,
        0 <= y < height,
    ensures
        0 <= width * y + x < width * height,
{
    assert(width * y + width <= width * height) by (nonlinear_arith)
        requires
            0 <= y < height,
            0 < width,
    ;
    assert(0 <= width * y) by (nonlinear_arith)
        requires
            0 <= y,
            0 < width,
    ;
}

impl Screen {
    /// A well-formed screen holds one pixel for each position.
    pub proof fn lemma_pixel_count(&self)
        requires
            self.well_formed(),
        ensures
            self@.len() == self.width() * self.height(),
    {
    }

    /// The screen holds as many pixels as its size says. The constructor
    /// makes it so and every method keeps it so.
    pub closed spec fn well_formed(&self) -> bool {
        self.pixels.len() == self.width * self.height
    }

    /// The pixels, row by row.
    pub closed spec fn view(&self) -> Seq<Color> {
        self.pixels@
    }

    /// The number of pixels in a row.
    pub closed spec fn width(&self) -> nat {
        self.width as nat
    }

    /// The number of rows.
    pub closed spec fn height(&self) -> nat {
        self.height as nat
    }

    /// Whether a position lies inside the screen.
    pub open spec fn is_valid_point_spec(&self, x: usize, y: usize) -> bool {
        x < self.width() && y < self.height()
    }

    /// The color at a position inside the screen.
    pub open spec fn color_at(&self, x: int, y: int) -> Color {
        self@[self.width() * y + x]
    }

    /// The screen as a plain-text pixmap: the header with the size and the
    /// highest level, then the pixels.
    pub open spec fn pbm_spec(&self) -> Seq<char> {
        seq!['P', '3', '\n'] + decimal(self.width()).push(' ') + decimal(self.height())
            + seq!['\n', '2', '5', '5', '\n'] + pixel_lines(self@)
    }

    /// A screen of `width` by `height` pixels, all of `default_color`. The
    /// number of pixels has to fit the machine.
    pub fn from(width: usize, height: usize, default_color: Color) -> (r: Screen)
        requires
            width * height <= usize::MAX,
        ensures
            r.well_formed(),
            r.width() == width,
            r.height() == height,
            r@ == Seq::new((width * height) as nat, |i: int| default_color),
    {
        let n: usize = width * height;
        let mut pixels: Vec<Color> = Vec::new();
        let mut i: usize = 0;
        while i < n
            invariant
                i <= n,
                pixels@ == Seq::new(i as nat, |j: int| default_color),
            decreases n - i,
        {
            pixels.push(default_color);
            i = i + 1;
            assert(pixels@ =~= Seq::new(i as nat, |j: int| default_color));
        }
        Screen { pixels, width, height }
    }

    /// Paints one pixel. A position outside the screen is an error, and
    /// nothing is painted.
    pub fn paint_at(&mut self, x: usize, y: usize, color: Color) -> (r: Result<(), ()>)
        requires
            old(self).well_formed(),
        ensures
            final(self).well_formed(),
            final(self).width() == old(self).width(),
            final(self).height() == old(self).height(),
            r is Ok <==> old(self).is_valid_point_spec(x, y),
            r is Ok ==> final(self)@ == old(self)@.update(old(self).width() * y + x, color),
            r is Err ==> final(self)@ == old(self)@,
    {
        if !self.is_valid_point(x, y) {
            return Err(());
        }
        proof {
            lemma_index_in_grid(self.width as int, self.height as int, x as int, y as int);
            assert(0 <= self.width * y) by (nonlinear_arith)
                requires
                    0 <= self.width,
                    0 <= y,
            ;
        }
        self.pixels.set(self.width * y + x, color);
        Ok(())
    }

    /// The color of one pixel; none for a position outside the screen.
    pub fn get_color_at(&self, x: usize, y: usize) -> (r: Option<Color>)
        requires
            self.well_formed(),
        ensures
            r == if self.is_valid_point_spec(x, y) {
                Some(self.color_at(x as int, y as int))
            } else {
                None
            },
    {
        if !self.is_valid_point(x, y) {
            return None;
        }
        proof {
            lemma_index_in_grid(self.width as int, self.height as int, x as int, y as int);
            assert(0 <= self.width * y) by (nonlinear_arith)
                requires
                    0 <= self.width,
                    0 <= y,
            ;
        }
        Some(self.pixels[self.width * y + x])
    }

    /// A walk over all the positions of the screen, at its start.
    pub fn pixel_positions(&self) -> (r: ScreenPixelPositions)
        ensures
            r.x == 0,
            r.y == 0,
            r.width == self.width(),
            r.height == self.height(),
    {
        ScreenPixelPositions { x: 0, y: 0, width: self.width, height: self.height }
    }

    /// Whether a position lies inside the screen.
    #[verifier::when_used_as_spec(is_valid_point_spec)]
    pub fn is_valid_point(&self, x: usize, y: usize) -> (r: bool)
        ensures
            r == self.is_valid_point_spec(x, y),
    {
        x < self.width && y < self.height
    }

    /// The width and the height.
    pub fn resolution(&self) -> (r: (usize, usize))
        ensures
            r.0 == self.width(),
            r.1 == self.height(),
    {
        (self.width, self.height)
    }

    /// The picture as a plain-text pixmap.
    pub fn to_pbm(&self) -> (r: String)
        ensures
            r@ == self.pbm_spec(),
    {
        proof {
            reveal_strlit("P3\n");
            reveal_strlit(" ");
            reveal_strlit("\n255\n");
            reveal_strlit("\n");
        }
        let mut r: String = String::from_str("P3\n");
        let width: String = decimal_text(self.width as u64);
        r.append(width.as_str());
        r.append(" ");
        let height: String = decimal_text(self.height as u64);
        r.append(height.as_str());
        r.append("\n255\n");
        let ghost head: Seq<char> = r@;
        assert(head =~= seq!['P', '3', '\n'] + decimal(self.width()).push(' ') + decimal(
            self.height(),
        ) + seq!['\n', '2', '5', '5', '\n']);
        let mut i: usize = 0;
        while i < self.pixels.len()
            invariant
                i <= self.pixels.len(),
                r@ == head + pixel_lines(self.pixels@.take(i as int)),
            decreases self.pixels.len() - i,
        {
            let line: String = self.pixels[i].as_pbm_color();
            let ghost before: Seq<Color> = self.pixels@.take(i as int);
            let ghost after: Seq<Color> = self.pixels@.take(i + 1);
            proof {
                reveal_strlit("\n");
                assert(after.drop_last() =~= before);
                assert(after.last() == self.pixels@[i as int]);
                assert(pixel_lines(after) == pixel_lines(before) + line@.push('\n'));
                assert(line@ + "\n"@ =~= line@.push('\n'));
            }
            r.append(line.as_str());
            r.append("\n");
            i = i + 1;
            assert(r@ =~= head + pixel_lines(after));
        }
        proof {
            assert(self.pixels@.take(self.pixels.len() as int) =~= self.pixels@);
        }
        r
    }
}

impl ScreenPixelPositions {
    /// The column at which the walk goes on: the first one, once a row is
    /// done.
    pub open spec fn column(&self) -> int {
        if self.x >= self.width {
            0
        } else {
            self.x as int
        }
    }

    /// The row at which the walk goes on: the next one, once a row is done.
    pub open spec fn row(&self) -> int {
        if self.x >= self.width && self.y < usize::MAX {
            self.y + 1
        } else {
            self.y as int
        }
    }

    /// Whether the walk is over: no row is left, or the rows hold nothing.
    pub open spec fn is_done(&self) -> bool {
        self.row() >= self.height || self.width == 0
    }

    /// The position that comes next, and none once the walk is over.
    pub open spec fn upcoming(&self) -> Option<(usize, usize)> {
        if self.is_done() {
            None
        } else {
            Some((self.column() as usize, self.row() as usize))
        }
    }

    /// The walk one position on. Once it is over it stays where it is.
    pub open spec fn advanced(&self) -> ScreenPixelPositions {
        ScreenPixelPositions {
            x: if self.is_done() {
                self.column() as usize
            } else {
                (self.column() + 1) as usize
            },
            y: self.row() as usize,
            width: self.width,
            height: self.height,
        }
    }

    /// The walk `n` positions on.
    pub open spec fn after(&self, n: nat) -> ScreenPixelPositions
        decreases n,
    {
        if n == 0 {
            *self
        } else {
            self.after((n - 1) as nat).advanced()
        }
    }

    /// The walk at its start.
    pub open spec fn start(width: usize, height: usize) -> ScreenPixelPositions {
        ScreenPixelPositions { x: 0, y: 0, width, height }
    }

    /// How many positions a walk has passed that stands inside a row or
    /// at its end.
    pub open spec fn passed(&self) -> int {
        self.width * self.y + self.x
    }

    /// One step of a walk that has passed `passed()` positions: it comes
    /// to the position with that number, row by row, and has then passed
    /// one more; or it is over, all positions passed.
    pub proof fn lemma_step(&self)
        requires
            self.width > 0,
            self.x <= self.width,
            self.passed() <= self.width * self.height,
        ensures
            self.passed() < self.width * self.height ==> self.upcoming() == Some(
                (
                    (self.passed() % self.width as int) as usize,
                    (self.passed() / self.width as int) as usize,
                ),
            ) && self.advanced().passed() == self.passed() + 1,
            self.passed() >= self.width * self.height ==> self.upcoming() is None
                && self.advanced().passed() == self.passed(),
            self.advanced().x <= self.width,
    {
        let (w, h) = (self.width as int, self.height as int);
        let (x, y) = (self.x as int, self.y as int);
        assert(w * (y + 1) == w * y + w) by (nonlinear_arith);
        assert(w * y >= 0) by (nonlinear_arith)
            requires
                w > 0,
                y >= 0,
        ;
        // the row lies inside the screen exactly if positions are left
        assert(self.row() < h <==> self.passed() < w * h) by {
            let row: int = self.row();
            if row < h {
                assert(w * row + w <= w * h) by (nonlinear_arith)
                    requires
                        row + 1 <= h,
                        w > 0,
                ;
            } else {
                assert(w * row >= w * h) by (nonlinear_arith)
                    requires
                        row >= h,
                        w > 0,
                ;
            }
        }
        if self.row() < h {
            lemma_position_of_index(w, self.column(), self.row());
        }
        if x == w && y == usize::MAX {
            // not within the requirement: more rows passed than there are
            assert(w * (y + 1) > w * h) by (nonlinear_arith)
                requires
                    y + 1 > h,
                    w > 0,
            ;
        }
    }

    /// A walk from the start comes to all the positions of the screen row
    /// by row, from left to right within a row, and then is over.
    pub proof fn lemma_walk_is_row_by_row(width: usize, height: usize, n: nat)
        requires
            width > 0,
        ensures
            n < width * height ==> ScreenPixelPositions::start(width, height).after(n).upcoming()
                == Some(((n % width as nat) as usize, (n / width as nat) as usize)),
            n >= width * height ==> ScreenPixelPositions::start(width, height).after(
                n,
            ).upcoming() is None,
    {
        ScreenPixelPositions::lemma_walk_passes(width, height, n);
        ScreenPixelPositions::start(width, height).after(n).lemma_step();
    }

    /// A walk that went `n` positions on from the start has passed `n`
    /// positions, or all of them.
    proof fn lemma_walk_passes(width: usize, height: usize, n: nat)
        requires
            width > 0,
        ensures
            ({
                let walk: ScreenPixelPositions = ScreenPixelPositions::start(width, height).after(
                    n,
                );
                &&& walk.width == width
                &&& walk.height == height
                &&& walk.x <= width
                &&& walk.passed() == if n <= width * height {
                    n as int
                } else {
                    width * height
                }
            }),
        decreases n,
    {
        assert(width * height >= 0 && width * 0 == 0) by (nonlinear_arith);
        if n > 0 {
            ScreenPixelPositions::lemma_walk_passes(width, height, (n - 1) as nat);
            ScreenPixelPositions::start(width, height).after((n - 1) as nat).lemma_step();
        }
    }

    /// The next position, and none once the walk is over.
    pub fn next(&mut self) -> (r: Option<(usize, usize)>)
        ensures
            r == old(self).upcoming(),
            *final(self) == old(self).advanced(),
    {
        if self.x >= self.width {
            self.x = 0;
            if self.y < usize::MAX {
                self.y = self.y + 1;
            }
        }
        if self.y >= self.height || self.width == 0 {
            return None;
        }
        let current: (usize, usize) = (self.x, self.y);
        self.x = self.x + 1;
        Some(current)
    }
}

} // verus!
