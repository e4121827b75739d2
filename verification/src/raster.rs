//! The picture that a progressive render fills pixel by pixel, in whatever
//! order the pixels are drawn.

use rand::rngs::StdRng;
use rand::Rng;
use vstd::prelude::*;

verus! {

/// The standard generator of `rand`. Nothing of its state is known here.
#[verifier::external_type_specification]
#[verifier::external_body]
pub struct ExStdRng(rand::rngs::StdRng);

/// Draws from `0..bound` with `rand::Rng::gen_range`, which panics on an
/// empty range and otherwise returns a member of the range. Which member is
/// left open: it depends on the state of the generator, of which nothing is
/// said.
#[verifier::external_body]
fn random_below(rng: &mut StdRng, bound: usize) -> (n: usize)
    requires
        bound > 0,
    ensures
        n < bound,
{
    rng.gen_range(0..bound)
}

/// A picture of `width` by `height` pixels, one packed colour each, stored
/// row by row from the top.
pub struct Frame {
    width: usize,
    height: usize,
    pixels: Vec<u32>,
}

impl View for Frame {
    type V = Seq<u32>;

    /// The pixels row by row.
    closed spec fn view(&self) -> Seq<u32> {
        self.pixels@
    }
}

/// The place of pixel (`x`, `y`) in a picture of the given width, stored row
/// by row.
pub open spec fn pixel_index(width: int, x: int, y: int) -> int {
    x + y * width
}

/// The row of the viewport that row `y` of a picture of the given height
/// shows. The picture counts its rows from the top and the viewport from the
/// bottom, so the top row of the picture is the highest of the viewport.
pub open spec fn flipped(height: int, y: int) -> int {
    height - 1 - y
}

impl Frame {
    /// How many pixels a row has.
    pub closed spec fn spec_width(&self) -> usize {
        self.width
    }

    /// How many rows there are.
    pub closed spec fn spec_height(&self) -> usize {
        self.height
    }

    /// There is one colour for each pixel, and no more pixels than can be
    /// stored. Every frame that this library hands out is such, and stays so.
    pub open spec fn wf(&self) -> bool {
        &&& self@.len() == self.spec_width() * self.spec_height()
        &&& self.spec_width() * self.spec_height() <= usize::MAX / 8
    }

    /// The colour of pixel (`x`, `y`).
    pub open spec fn pixel(&self, x: int, y: int) -> u32 {
        self@[pixel_index(self.spec_width() as int, x, y)]
    }

    /// A black picture. There is none of more pixels than an eighth of the
    /// address space: its colours could not be stored.
    pub fn new(width: usize, height: usize) -> (frame: Option<Frame>)
        ensures
            frame is Some <==> width * height <= usize::MAX / 8,
            frame matches Some(f) ==> {
                &&& f.wf()
                &&& f.spec_width() == width
                &&& f.spec_height() == height
                &&& forall|i: int| 0 <= i < f@.len() ==> f@[i] == 0
            },
    {
        match width.checked_mul(height) {
            Some(count) => {
                if count > usize::MAX / 8 {
                    None
                } else {
                    Some(Frame { width, height, pixels: vec![0u32; count] })
                }
            },
            None => None,
        }
    }

    /// How many pixels a row has.
    #[verifier::when_used_as_spec(spec_width)]
    pub fn width(&self) -> (width: usize)
        ensures
            width == self.spec_width(),
    {
        self.width
    }

    /// How many rows there are.
    #[verifier::when_used_as_spec(spec_height)]
    pub fn height(&self) -> (height: usize)
        ensures
            height == self.spec_height(),
    {
        self.height
    }

    /// The colours row by row, as a window or an encoder takes them.
    pub fn pixels(&self) -> (pixels: &[u32])
        ensures
            pixels@ == self@,
    {
        self.pixels.as_slice()
    }

    /// The colour of one pixel.
    pub fn get(&self, x: usize, y: usize) -> (color: u32)
        requires
            self.wf(),
            x < self.spec_width(),
            y < self.spec_height(),
        ensures
            color == self.pixel(x as int, y as int),
    {
        proof {
            lemma_pixel_index_in_frame(
                self.width as int,
                self.height as int,
                x as int,
                y as int,
            );
        }
        self.pixels[x + y * self.width]
    }

    /// Gives one pixel its colour and leaves every other as it was.
    pub fn put(&mut self, x: usize, y: usize, color: u32)
        requires
            old(self).wf(),
            x < old(self).spec_width(),
            y < old(self).spec_height(),
        ensures
            final(self).wf(),
            final(self).spec_width() == old(self).spec_width(),
            final(self).spec_height() == old(self).spec_height(),
            final(self)@ == old(self)@.update(
                pixel_index(old(self).spec_width() as int, x as int, y as int),
                color,
            ),
            final(self).pixel(x as int, y as int) == color,
            forall|i: int, j: int|
                0 <= i < old(self).spec_width() && 0 <= j < old(self).spec_height() && (i != x || j
                    != y) ==> final(self).pixel(i, j) == old(self).pixel(i, j),
    {
        proof {
            lemma_pixel_index_in_frame(
                self.width as int,
                self.height as int,
                x as int,
                y as int,
            );
        }
        let ghost before = self.pixels@;
        let at: usize = x + y * self.width;
        self.pixels.set(at, color);
        proof {
            let width = self.width as int;
            assert forall|i: int, j: int|
                0 <= i < self.width && 0 <= j < self.height && (i != x || j != y)
                implies self.pixels@[pixel_index(width, i, j)] == before[pixel_index(width, i, j)] by {
                lemma_pixel_index_in_frame(width, self.height as int, i, j);
                if pixel_index(width, i, j) == at {
                    lemma_pixel_index_is_one_to_one(width, i, j, x as int, y as int);
                }
            }
        }
    }

    /// Makes the whole picture black again.
    pub fn clear(&mut self)
        requires
            old(self).wf(),
        ensures
            final(self).wf(),
            final(self).spec_width() == old(self).spec_width(),
            final(self).spec_height() == old(self).spec_height(),
            forall|i: int| 0 <= i < final(self)@.len() ==> final(self)@[i] == 0,
    {
        let count: usize = self.pixels.len();
        self.pixels = vec![0u32; count];
    }

    /// The row of the viewport that row `y` of the picture shows.
    pub fn flipped_row(&self, y: usize) -> (row: usize)
        requires
            y < self.spec_height(),
        ensures
            row == flipped(self.spec_height() as int, y as int),
    {
        self.height - 1 - y
    }

    /// Draws a pixel at random: some pixel of the picture, or `None` if it
    /// has no pixel at all.
    pub fn sample(&self, rng: &mut StdRng) -> (at: Option<(usize, usize)>)
        ensures
            at is None <==> self.spec_width() == 0 || self.spec_height() == 0,
            at matches Some(p) ==> p.0 < self.spec_width() && p.1 < self.spec_height(),
    {
        if self.width == 0 || self.height == 0 {
            None
        } else {
            let x: usize = random_below(rng, self.width);
            let y: usize = random_below(rng, self.height);
            Some((x, y))
        }
    }
}

/// A pixel of the picture has its place among the picture's colours.
pub proof fn lemma_pixel_index_in_frame(width: int, height: int, x: int, y: int)
    requires
        0 <= x < width,
        0 <= y < height,
    ensures
        0 <= y * width,
        0 <= pixel_index(width, x, y) < width * height,
{
    assert(0 <= y * width && x + y * width < width * height) by (nonlinear_arith)
        requires
            0 <= x < width,
            0 <= y < height,
    ;
}

/// No two pixels of a picture share a place.
pub proof fn lemma_pixel_index_is_one_to_one(width: int, x1: int, y1: int, x2: int, y2: int)
    requires
        0 <= x1 < width,
        0 <= x2 < width,
        0 <= y1,
        0 <= y2,
        pixel_index(width, x1, y1) == pixel_index(width, x2, y2),
    ensures
        x1 == x2,
        y1 == y2,
{
    if y1 < y2 {
        assert(y2 * width >= y1 * width + width) by (nonlinear_arith)
            requires
                y1 < y2,
                width > 0,
        ;
    } else if y2 < y1 {
        assert(y1 * width >= y2 * width + width) by (nonlinear_arith)
            requires
                y2 < y1,
                width > 0,
        ;
    }
}

/// Flipping turns the rows of a picture upside down: a row goes to a row,
/// the top one to the highest, and flipping twice gives the row back.
pub proof fn lemma_flip_is_involution(height: int, y: int)
    requires
        0 <= y < height,
    ensures
        0 <= flipped(height, y) < height,
        flipped(height, 0) == height - 1,
        flipped(height, flipped(height, y)) == y,
{
}

} // verus!
