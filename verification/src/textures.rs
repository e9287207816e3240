use vstd::prelude::*;
use crate::screen::Pixel;

verus! {

/// Which of the two face orientations a ray struck.
#[derive(Copy, Clone, Debug, PartialEq, Eq, Structural)]
pub enum Side {
    /// A face that runs west to east, crossed while travelling north or south.
    NorthSouth,
    /// A face that runs north to south, crossed while travelling west or east.
    WestEast,
}

impl Side {
    pub open spec fn spec_flipped(self) -> Side {
        match self {
            Side::NorthSouth => Side::WestEast,
            Side::WestEast => Side::NorthSouth,
        }
    }

    pub open spec fn spec_index(self) -> int {
        match self {
            Side::NorthSouth => 0,
            Side::WestEast => 1,
        }
    }

    /// The other orientation.
    pub fn flipped(self) -> (r: Side)
        ensures
            r == self.spec_flipped(),
            r != self,
            r.spec_flipped() == self,
    {
        match self {
            Side::NorthSouth => Side::WestEast,
            Side::WestEast => Side::NorthSouth,
        }
    }

    /// Position of this orientation along the atlas's side axis.
    pub fn index(self) -> (i: usize)
        ensures
            i == self.spec_index(),
    {
        match self {
            Side::NorthSouth => 0,
            Side::WestEast => 1,
        }
    }
}

/// A texture id together with the orientation of the struck face.
#[derive(Copy, Clone, Debug, PartialEq, Eq, Structural)]
pub struct TextureSpec {
    pub tx: u8,
    pub side: Side,
}

impl TextureSpec {
    pub open spec fn spec_flipped(self) -> TextureSpec {
        TextureSpec { tx: self.tx, side: self.side.spec_flipped() }
    }

    /// The same texture on the other face orientation.
    pub fn flipped(self) -> (r: TextureSpec)
        ensures
            r == self.spec_flipped(),
            r.tx == self.tx,
            r.side == self.side.spec_flipped(),
    {
        TextureSpec { tx: self.tx, side: self.side.flipped() }
    }
}

/// Edge length of a texture tile, in texels.
pub const TILE_SZ: usize = 64;

/// Number of banks in an atlas; a bank holds three textures.
pub const BANKS: usize = 19;

/// Number of texture ids an atlas serves.
pub const TEXTURES: usize = 57;

/// Number of pixels in an atlas: two tiles for each texture id.
pub const ATLAS_LEN: usize = 466944;

/// A read-only collection of tiles: for each texture id one tile for each
/// face orientation.
#[verifier::external_body]
pub struct Textures<'a> {
    data: ndarray::ArrayView5<'a, Pixel>,
}

/// One square tile of texels, borrowed from an atlas.
#[verifier::external_body]
pub struct Tile<'a> {
    texels: ndarray::ArrayView2<'a, Pixel>,
}

/// The pixels of the array behind an atlas, in the order of its five axes:
/// bank, slot in the bank, face orientation, texel row, texel column.
pub uninterp spec fn atlas_texels(t: Textures) -> Seq<Pixel>;

/// The pixels of the array behind a tile, row by row.
pub uninterp spec fn tile_texels(t: Tile) -> Seq<Pixel>;

impl<'a> View for Textures<'a> {
    type V = Seq<Pixel>;

    open spec fn view(&self) -> Seq<Pixel> {
        atlas_texels(*self)
    }
}

impl<'a> View for Tile<'a> {
    type V = Seq<Pixel>;

    open spec fn view(&self) -> Seq<Pixel> {
        tile_texels(*self)
    }
}

/// Where the tile of a texture begins in an atlas's pixels.
pub open spec fn tile_start(spec: TextureSpec) -> int {
    (spec.tx * 2 + spec.side.spec_index()) * (TILE_SZ * TILE_SZ)
}

/// The tile that an atlas holds for a texture, row by row.
pub open spec fn tile_of(atlas: Seq<Pixel>, spec: TextureSpec) -> Seq<Pixel> {
    atlas.subrange(tile_start(spec), tile_start(spec) + TILE_SZ * TILE_SZ)
}

/// `ArrayView5::from_shape` with the shape of an atlas, `(19, 3, 2, 64, 64)`,
/// in the default row-major layout, over exactly that many pixels: the view
/// is made, and holds the pixels in their order.
#[verifier::external_body]
fn atlas_over<'a>(pixels: &'a [Pixel], shape: (usize, usize, usize, usize, usize)) -> (t: Option<
    Textures<'a>,
>)
    requires
        shape == (BANKS, 3usize, 2usize, TILE_SZ, TILE_SZ),
        pixels@.len() == ATLAS_LEN,
    ensures
        t is Some,
        atlas_texels(t->0) == pixels@,
{
    match ndarray::ArrayView5::from_shape(shape, pixels) {
        Ok(view) => Some(Textures { data: view }),
        Err(_) => None,
    }
}

/// `ArrayBase::index_axis_move` on the first axis of a copy of the view,
/// three times: the bank, the slot, the face orientation. What is left is
/// the 64 by 64 tile at that place. It panics on an index out of bounds.
#[verifier::external_body]
fn tile_in<'a>(t: &Textures<'a>, bank: usize, slot: usize, side: usize) -> (tile: Tile<'a>)
    requires
        atlas_texels(*t).len() == ATLAS_LEN,
        bank < BANKS,
        slot < 3,
        side < 2,
    ensures
        tile_texels(tile) == atlas_texels(*t).subrange(
            ((bank * 3 + slot) * 2 + side) * (TILE_SZ * TILE_SZ),
            ((bank * 3 + slot) * 2 + side) * (TILE_SZ * TILE_SZ) + TILE_SZ * TILE_SZ,
        ),
{
    let first = ndarray::Axis(0);
    Tile {
        texels: t.data.index_axis_move(first, bank).index_axis_move(first, slot).index_axis_move(
            first,
            side,
        ),
    }
}

/// Indexing of a tile with `[[v, u]]`, which panics out of bounds.
#[verifier::external_body]
fn texel_at(tile: &Tile, v: usize, u: usize) -> (p: Pixel)
    requires
        tile_texels(*tile).len() == TILE_SZ * TILE_SZ,
        v < TILE_SZ,
        u < TILE_SZ,
    ensures
        p == tile_texels(*tile)[v * TILE_SZ + u],
{
    tile.texels[[v, u]]
}

impl<'a> Textures<'a> {
    /// An atlas over `pixels`, which hold the tiles one after another: for
    /// each texture id first the north-south tile, then the west-east one,
    /// each row by row. `None` unless there are exactly `ATLAS_LEN` pixels.
    pub fn new(pixels: &'a [Pixel]) -> (t: Option<Textures<'a>>)
        ensures
            t is Some <==> pixels@.len() == ATLAS_LEN,
            t is Some ==> t->0@ == pixels@,
    {
        if pixels.len() != ATLAS_LEN {
            return None;
        }
        atlas_over(pixels, (BANKS, 3, 2, TILE_SZ, TILE_SZ))
    }

    /// The tile for a texture id and face orientation. Texture `i` is slot
    /// `i % 3` of bank `i / 3`.
    pub fn tx(&self, tx: TextureSpec) -> (tile: Tile<'a>)
        requires
            self@.len() == ATLAS_LEN,
            tx.tx < TEXTURES,
        ensures
            tile@ == tile_of(self@, tx),
            tile@.len() == TILE_SZ * TILE_SZ,
    {
        let i: usize = tx.tx as usize;
        tile_in(self, i / 3, i % 3, tx.side.index())
    }
}

impl<'a> Tile<'a> {
    /// The texel in row `v`, column `u`.
    pub fn texel(&self, v: usize, u: usize) -> (p: Pixel)
        requires
            self@.len() == TILE_SZ * TILE_SZ,
            v < TILE_SZ,
            u < TILE_SZ,
        ensures
            p == self@[v * TILE_SZ + u],
    {
        texel_at(self, v, u)
    }
}

} // verus!
