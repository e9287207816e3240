use vstd::prelude::*;

verus! {

/// One RGBA8 pixel.
#[derive(Clone, Copy, Debug, Default, PartialEq, Eq, Structural)]
pub struct Pixel {
    pub r: u8,
    pub g: u8,
    pub b: u8,
    pub a: u8,
}

/// The mathematical content of a screen: its rows from top to bottom, and
/// the number of columns.
pub struct ScreenView {
    pub rows: Seq<Seq<Pixel>>,
    pub width: nat,
}

impl ScreenView {
    pub open spec fn height(self) -> nat {
        self.rows.len()
    }

    /// Every row has `width` pixels.
    pub open spec fn wf(self) -> bool {
        forall|r: int| 0 <= r < self.rows.len() ==> (#[trigger] self.rows[r]).len() == self.width
    }

    /// The screen with the pixel in column `x` of row `y` replaced by `p`.
    pub open spec fn with_pixel(self, x: int, y: int, p: Pixel) -> ScreenView {
        ScreenView { rows: self.rows.update(y, self.rows[y].update(x, p)), width: self.width }
    }
}

/// A row-major pixel buffer of fixed size, borrowed from the caller for
/// writing.
#[verifier::external_body]
pub struct Screen<'a> {
    pixels: ndarray::ArrayViewMut2<'a, Pixel>,
}

/// The rows of the array behind a screen, first axis first.
pub uninterp spec fn screen_rows(s: Screen) -> Seq<Seq<Pixel>>;

/// The length of the second axis of the array behind a screen.
pub uninterp spec fn screen_width(s: Screen) -> nat;

impl<'a> View for Screen<'a> {
    type V = ScreenView;

    open spec fn view(&self) -> ScreenView {
        ScreenView { rows: screen_rows(*self), width: screen_width(*self) }
    }
}

/// `ArrayBase::dim` of the array behind a screen: the lengths of the two
/// axes, rows first.
#[verifier::external_body]
fn screen_dims(s: &Screen) -> (d: (usize, usize))
    ensures
        d.0 == screen_rows(*s).len(),
        d.1 == screen_width(*s),
{
    s.pixels.dim()
}

impl<'a> Screen<'a> {
    /// `ArrayViewMut2::from_shape` with the shape `(height, width)` in the
    /// default row-major layout over a buffer of exactly `width * height`
    /// pixels: row `r` of the screen is the `r`-th run of `width` pixels.
    /// The view is refused, beside an empty axis, for an axis longer than
    /// `isize::MAX`.
    #[verifier::external_body]
    pub fn new(buf: &'a mut [Pixel], width: usize, height: usize) -> (s: Screen<'a>)
        requires
            width <= isize::MAX,
            height <= isize::MAX,
            old(buf)@.len() == width * height,
        ensures
            screen_width(s) == width,
            screen_rows(s) == Seq::new(
                height as nat,
                |r: int| old(buf)@.subrange(r * width, r * width + width),
            ),
    {
        Screen { pixels: ndarray::ArrayViewMut2::from_shape((height, width), buf).unwrap() }
    }

    /// Number of columns.
    pub fn width(&self) -> (w: usize)
        ensures
            w == self@.width,
    {
        screen_dims(self).1
    }

    /// Number of rows.
    pub fn height(&self) -> (h: usize)
        ensures
            h == self@.height(),
    {
        screen_dims(self).0
    }

    /// Mutable indexing of the array with `[[y, x]]`, which panics out of
    /// bounds: the pixel in column `x` of row `y`, for writing. Whatever
    /// is written there is the only change to the screen.
    #[verifier::external_body]
    pub fn px(&mut self, x: usize, y: usize) -> (p: &mut Pixel)
        requires
            x < screen_width(*old(self)),
            y < screen_rows(*old(self)).len(),
        ensures
            *p == screen_rows(*old(self))[y as int][x as int],
            screen_width(*final(self)) == screen_width(*old(self)),
            screen_rows(*final(self)) == screen_rows(*old(self)).update(
                y as int,
                screen_rows(*old(self))[y as int].update(x as int, *final(p)),
            ),
    {
        &mut self.pixels[[y, x]]
    }
}

/// Writes one pixel and reports the screen's new content.
pub fn put(screen: &mut Screen, x: usize, y: usize, p: Pixel)
    requires
        x < old(screen)@.width,
        y < old(screen)@.height(),
    ensures
        final(screen)@ == old(screen)@.with_pixel(x as int, y as int, p),
{
    *screen.px(x, y) = p;
}

} // verus!
