//! Positions on the tile grid and their single-point geometry.
//!
//! A [`Coordinate`] addresses one pixel of one tile: a zoom level, the tile's
//! column and row, and the pixel offset inside the tile. The projection from
//! and to degrees of latitude and longitude works on floating point numbers
//! and lives with the callers; everything here is integer arithmetic.

use vstd::prelude::*;

verus! {

/// Deepest zoom level of the pyramid.
pub const MAX_ZOOM: u8 = 22;

/// Width and height of a tile in pixels.
pub const EXTENT: u32 = 4096;

/// The `MoveTo` command with a repeat count of one: `(1 & 0x7) | (1 << 3)`.
pub const MOVE_TO_ONCE: u32 = 9;

/// Zigzag code of a signed integer: `0, -1, 1, -2, 2, ...` map to
/// `0, 1, 2, 3, 4, ...`.
pub open spec fn zigzag(n: int) -> int {
    if n >= 0 {
        2 * n
    } else {
        -2 * n - 1
    }
}

/// The signed integer whose zigzag code is `n`.
pub open spec fn unzigzag(n: int) -> int {
    if n % 2 == 0 {
        n / 2
    } else {
        -(n / 2) - 1
    }
}

/// The value of a 32-bit pattern read as a two's complement number.
pub open spec fn signed32(n: int) -> int {
    if n < 0x8000_0000 {
        n
    } else {
        n - 0x1_0000_0000
    }
}

/// The 32-bit pattern of a signed number: its residue modulo `2^32`.
pub open spec fn pattern32(n: int) -> int {
    n % 0x1_0000_0000
}

/// A zoom level limited to the pyramid's range.
pub open spec fn clamped_zoom(zoom: u8) -> u8 {
    if zoom > MAX_ZOOM {
        MAX_ZOOM
    } else {
        zoom
    }
}

/// The geometry words of a pixel: the command, then the zigzag codes of the
/// horizontal offset and of the vertical offset counted from the opposite
/// edge of the tile.
pub open spec fn geometry_of(sx: u32, sy: u32) -> Seq<u32> {
    seq![
        MOVE_TO_ONCE,
        zigzag(signed32(sx as int)) as u32,
        zigzag(signed32(pattern32(EXTENT - signed32(sy as int)))) as u32,
    ]
}

/// The horizontal pixel offset that a geometry word stands for.
pub open spec fn screen_x_of(word: u32) -> u32 {
    pattern32(unzigzag(word as int)) as u32
}

/// The vertical pixel offset that a geometry word stands for.
pub open spec fn screen_y_of(word: u32) -> u32 {
    pattern32(EXTENT - unzigzag(word as int)) as u32
}

/// Zigzag-encodes a signed 32-bit value.
pub fn zigzag_encode(n: i32) -> (r: u32)
    ensures
        r as int == zigzag(n as int),
{
    if n >= 0 {
        let half: u32 = n as u32;
        half * 2
    } else {
        let half: u32 = (-(n + 1)) as u32;
        half * 2 + 1
    }
}

/// Decodes a zigzag-encoded 32-bit value.
pub fn zigzag_decode(n: u32) -> (r: i32)
    ensures
        r as int == unzigzag(n as int),
{
    let half: i32 = (n / 2) as i32;
    if n % 2 == 0 {
        half
    } else {
        -half - 1
    }
}

/// Decoding undoes encoding for every signed 32-bit value, and a value that
/// is not negative has an even code twice its size, so a pixel offset keeps
/// its sign.
pub proof fn lemma_zigzag_round_trip(n: i32)
    ensures
        0 <= zigzag(n as int) <= u32::MAX,
        unzigzag(zigzag(n as int)) == n,
        n >= 0 ==> zigzag(n as int) == 2 * n,
{
}

/// Encoding undoes decoding for every 32-bit code.
pub proof fn lemma_unzigzag_round_trip(n: u32)
    ensures
        i32::MIN <= unzigzag(n as int) <= i32::MAX,
        zigzag(unzigzag(n as int)) == n,
{
}

/// One pixel of one tile of the pyramid.
#[derive(Clone, Copy, Debug, PartialEq, Eq)]
pub struct Coordinate {
    zom: u8,
    sx: u32,
    sy: u32,
    tx: u32,
    ty: u32,
}

/// What a [`Coordinate`] holds.
pub ghost struct CoordinateView {
    pub zoom: u8,
    pub tx: u32,
    pub ty: u32,
    pub sx: u32,
    pub sy: u32,
}

impl View for Coordinate {
    type V = CoordinateView;

    closed spec fn view(&self) -> CoordinateView {
        CoordinateView { zoom: self.zom, tx: self.tx, ty: self.ty, sx: self.sx, sy: self.sy }
    }
}

impl Coordinate {
    /// The zoom level never leaves the pyramid.
    #[verifier::type_invariant]
    spec fn in_pyramid(self) -> bool {
        self.zom <= MAX_ZOOM
    }

    /// The pixel `(sx, sy)` of tile `(tx, ty)`; a zoom beyond the deepest
    /// level is taken as the deepest level.
    pub fn from_screen(zom: u8, tx: u32, ty: u32, sx: u32, sy: u32) -> (r: Coordinate)
        ensures
            r@ == (CoordinateView { zoom: clamped_zoom(zom), tx, ty, sx, sy }),
    {
        let zom: u8 = if zom > MAX_ZOOM { MAX_ZOOM } else { zom };
        Coordinate { zom, sx, sy, tx, ty }
    }

    /// The pixel that a single-point geometry names inside tile `(tx, ty)`.
    /// The command word is not read; offsets outside the tile wrap as
    /// 32-bit numbers and make no failure.
    pub fn from_geometry(zom: u8, tx: u32, ty: u32, geom: [u32; 3]) -> (r: Coordinate)
        ensures
            r@ == (CoordinateView {
                zoom: clamped_zoom(zom),
                tx,
                ty,
                sx: screen_x_of(geom[1]),
                sy: screen_y_of(geom[2]),
            }),
    {
        let dx: i64 = zigzag_decode(geom[1]) as i64;
        let dy: i64 = EXTENT as i64 - zigzag_decode(geom[2]) as i64;
        let sx: u32 = pattern_of(dx);
        let sy: u32 = pattern_of(dy);
        Self::from_screen(zom, tx, ty, sx, sy)
    }

    /// The single-point geometry of this pixel.
    pub fn to_geometry(&self) -> (r: [u32; 3])
        ensures
            r@ == geometry_of(self@.sx, self@.sy),
    {
        let x: u32 = zigzag_encode(signed_of(self.sx));
        let flipped: i64 = EXTENT as i64 - signed_of(self.sy) as i64;
        let y: u32 = zigzag_encode(signed_of(pattern_of(flipped)));
        let r: [u32; 3] = [MOVE_TO_ONCE, x, y];
        assert(r@ =~= geometry_of(self@.sx, self@.sy));
        r
    }

    /// The zoom level, at most [`MAX_ZOOM`].
    pub fn zoom(&self) -> (r: u8)
        ensures
            r == self@.zoom,
            r <= MAX_ZOOM,
    {
        proof {
            use_type_invariant(self);
        }
        self.zom
    }

    /// Pixel offset from the tile's left edge.
    pub fn sx(&self) -> (r: u32)
        ensures
            r == self@.sx,
    {
        self.sx
    }

    /// Pixel offset on the vertical axis.
    pub fn sy(&self) -> (r: u32)
        ensures
            r == self@.sy,
    {
        self.sy
    }

    /// Column of the tile.
    pub fn tx(&self) -> (r: u32)
        ensures
            r == self@.tx,
    {
        self.tx
    }

    /// Row of the tile.
    pub fn ty(&self) -> (r: u32)
        ensures
            r == self@.ty,
    {
        self.ty
    }
}

/// The 32-bit pattern of a number between `-2^32` and `2^32`.
fn pattern_of(n: i64) -> (r: u32)
    requires
        -0x1_0000_0000 < n < 0x1_0000_0000,
    ensures
        r as int == pattern32(n as int),
{
    if n < 0 {
        (n + 0x1_0000_0000) as u32
    } else {
        n as u32
    }
}

/// A 32-bit pattern read as a two's complement number.
fn signed_of(n: u32) -> (r: i32)
    ensures
        r as int == signed32(n as int),
{
    if n < 0x8000_0000 {
        n as i32
    } else {
        (n as i64 - 0x1_0000_0000) as i32
    }
}

/// A geometry written by [`Coordinate::to_geometry`] reads back as the pixel
/// it was written from, whatever the pixel.
pub proof fn lemma_geometry_round_trip(sx: u32, sy: u32)
    ensures
        screen_x_of(geometry_of(sx, sy)[1]) == sx,
        screen_y_of(geometry_of(sx, sy)[2]) == sy,
{
}

} // verus!
