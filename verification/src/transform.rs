//! Coordinate transform: tile addresses, bounding boxes, and the mapping
//! from world coordinates into tile-local integer space.
//!
//! The world is the square `[0, WORLD_SIZE] x [0, WORLD_SIZE]` in
//! fixed-point projected units.  A tile address `(zoom, column, row)`
//! selects one cell of the power-of-two pyramid over that square, with a
//! top-left row origin: row 0 is the band with the largest `y` values.

use vstd::prelude::*;
use vstd::arithmetic::power2::{pow2, lemma_pow2_adds, lemma_pow2_unfold, lemma_pow2_pos, lemma2_to64};

use crate::error::Error;

verus! {

/// Width of the projected world in fixed-point coordinate units.
pub const WORLD_SIZE: i64 = 0x1_0000_0000;

/// Deepest zoom level the pyramid supports.
pub const MAX_ZOOM: u8 = 30;

/// Largest tile-local grid resolution accepted by the pipeline.
pub const MAX_EXTENT: u32 = 8192;

/// One tile in the power-of-two pyramid.
///
/// Valid addresses satisfy `wf`: the column and row index one of the
/// `2^zoom * 2^zoom` tiles of the zoom level.
#[derive(Debug, Clone, Copy, PartialEq, Eq, Structural)]
pub struct TileAddress {
    pub zoom: u8,
    pub column: u32,
    pub row: u32,
}

/// A tile's query region in world units.  Never mutated once derived.
#[derive(Debug, Clone, Copy, PartialEq, Eq, Structural)]
pub struct BoundingBox {
    pub min_x: i64,
    pub min_y: i64,
    pub max_x: i64,
    pub max_y: i64,
}

/// Edge length in world units of one tile at `zoom`.
pub open spec fn edge_len(zoom: nat) -> int
    recommends
        zoom <= MAX_ZOOM,
{
    pow2((32 - zoom) as nat) as int
}

impl TileAddress {
    /// The address indexes a real tile of its zoom level.
    pub open spec fn wf(self) -> bool {
        self.zoom <= MAX_ZOOM
            && (self.column as nat) < pow2(self.zoom as nat)
            && (self.row as nat) < pow2(self.zoom as nat)
    }

    /// Validating constructor: rejects out-of-range addresses before any
    /// database work begins.
    pub fn new(zoom: u8, column: u32, row: u32) -> (r: Result<TileAddress, Error>)
        ensures
            r is Ok <==> (zoom <= MAX_ZOOM
                && (column as nat) < pow2(zoom as nat)
                && (row as nat) < pow2(zoom as nat)),
            r matches Ok(a) ==> a == (TileAddress { zoom, column, row }),
            r matches Err(e) ==> e is InvalidAddress,
    {
        if zoom <= MAX_ZOOM {
            let n = pow2_u64(zoom);
            if (column as u64) < n && (row as u64) < n {
                return Ok(TileAddress { zoom, column, row });
            }
        }
        Err(Error::InvalidAddress)
    }
}

/// `2^z` as a machine integer.
pub fn pow2_u64(z: u8) -> (r: u64)
    requires
        z <= 32,
    ensures
        r == pow2(z as nat),
{
    let mut r: u64 = 1;
    let mut i: u8 = 0;
    proof {
        lemma2_to64();
    }
    while i < z
        invariant
            i <= z <= 32,
            r == pow2(i as nat),
        decreases z - i,
    {
        proof {
            lemma_pow2_unfold((i + 1) as nat);
            lemma_pow2_increases(i as nat, 31);
            lemma2_to64();
        }
        r = r * 2;
        i = i + 1;
    }
    r
}

/// Monotonicity of `pow2`, in the non-strict form the transforms need.
pub proof fn lemma_pow2_increases(e1: nat, e2: nat)
    requires
        e1 <= e2,
    ensures
        pow2(e1) <= pow2(e2),
{
    if e1 < e2 {
        vstd::arithmetic::power2::lemma_pow2_strictly_increases(e1, e2);
    }
}

impl BoundingBox {
    /// The shape every bounding box derived from a valid address has: a
    /// square inside the world whose edge is at least 4 units.
    pub open spec fn wf(self) -> bool {
        0 <= self.min_x < self.max_x <= WORLD_SIZE
            && 0 <= self.min_y < self.max_y <= WORLD_SIZE
            && self.max_x - self.min_x == self.max_y - self.min_y
            && self.max_x - self.min_x >= 4
    }
}

/// World `x` where a tile's column begins.
pub open spec fn bbox_min_x(a: TileAddress) -> int {
    a.column * edge_len(a.zoom as nat)
}

/// World `y` where a tile's row ends; row 0 touches the top of the world.
pub open spec fn bbox_max_y(a: TileAddress) -> int {
    WORLD_SIZE - a.row * edge_len(a.zoom as nat)
}

/// `column * edge` and `(column + 1) * edge` stay within the world.
proof fn lemma_cell_bounds(index: nat, zoom: nat)
    requires
        zoom <= MAX_ZOOM,
        index < pow2(zoom),
    ensures
        0 <= index * edge_len(zoom),
        (index + 1) * edge_len(zoom) <= WORLD_SIZE,
        edge_len(zoom) >= 4,
{
    let e = edge_len(zoom);
    lemma_pow2_pos((32 - zoom) as nat);
    lemma_pow2_adds(zoom, (32 - zoom) as nat);
    lemma2_to64();
    assert(pow2(zoom) * pow2((32 - zoom) as nat) == pow2(32));
    assert(pow2(32) == WORLD_SIZE);
    lemma_pow2_increases(2, (32 - zoom) as nat);
    assert((index + 1) * e <= pow2(zoom) * e) by (nonlinear_arith)
        requires
            index + 1 <= pow2(zoom),
            e > 0,
    ;
    assert(index * e >= 0) by (nonlinear_arith)
        requires
            index >= 0,
            e > 0,
    ;
}

/// The bounding box of a tile, as a value.
pub open spec fn bbox_spec(a: TileAddress) -> BoundingBox
    recommends
        a.wf(),
{
    BoundingBox {
        min_x: bbox_min_x(a) as i64,
        min_y: (bbox_max_y(a) - edge_len(a.zoom as nat)) as i64,
        max_x: (bbox_min_x(a) + edge_len(a.zoom as nat)) as i64,
        max_y: bbox_max_y(a) as i64,
    }
}

/// Derives a tile's query region: a pure function of the address alone,
/// using the standard power-of-two pyramid with a top-left row origin.
pub fn bounding_box(a: &TileAddress) -> (r: BoundingBox)
    requires
        a.wf(),
    ensures
        r.wf(),
        r == bbox_spec(*a),
        r.min_x == bbox_min_x(*a),
        r.max_x == bbox_min_x(*a) + edge_len(a.zoom as nat),
        r.max_y == bbox_max_y(*a),
        r.min_y == bbox_max_y(*a) - edge_len(a.zoom as nat),
{
    proof {
        lemma_cell_bounds(a.column as nat, a.zoom as nat);
        lemma_cell_bounds(a.row as nat, a.zoom as nat);
        lemma_pow2_increases((32 - a.zoom) as nat, 32);
        lemma2_to64();
    }
    let edge: i64 = pow2_u64(32 - a.zoom) as i64;
    proof {
        let c = a.column as int;
        let r = a.row as int;
        let e = edge as int;
        assert(c * e <= (c + 1) * e && 0 <= c * e) by (nonlinear_arith)
            requires
                c >= 0,
                e > 0,
        ;
        assert(r * e <= (r + 1) * e && 0 <= r * e) by (nonlinear_arith)
            requires
                r >= 0,
                e > 0,
        ;
    }
    let min_x: i64 = (a.column as i64) * edge;
    let max_y: i64 = WORLD_SIZE - (a.row as i64) * edge;
    proof {
        assert((a.column as int) * (edge as int) + (edge as int)
            == ((a.column as int) + 1) * (edge as int)) by (nonlinear_arith);
        assert((a.row as int) * (edge as int) + (edge as int)
            == ((a.row as int) + 1) * (edge as int)) by (nonlinear_arith);
        assert((a.row as int) * (edge as int) >= 0);
    }
    BoundingBox {
        min_x,
        min_y: max_y - edge,
        max_x: min_x + edge,
        max_y,
    }
}

/// Tile-local `x` of a world coordinate: linear rescale of `[min_x, max_x]`
/// onto `[0, extent]`, rounded to the nearest grid unit (half away from
/// `min_x`).  Coordinates outside the box map outside `[0, extent]`.
pub open spec fn local_x(wx: int, b: BoundingBox, extent: int) -> int {
    let e = b.max_x - b.min_x;
    ((wx - b.min_x) * extent + e / 2) / e
}

/// Tile-local `y` of a world coordinate.  The axis is flipped: the top of
/// the box (`max_y`) maps to 0, so `y` grows downward in tile space.
pub open spec fn local_y(wy: int, b: BoundingBox, extent: int) -> int {
    let e = b.max_y - b.min_y;
    ((b.max_y - wy) * extent + e / 2) / e
}

/// Floor division of a possibly negative numerator by a positive divisor.
fn floor_div(num: i64, d: i64) -> (q: i64)
    requires
        1 <= d <= WORLD_SIZE,
        -0x4_0000_0000_0000 <= num <= 0x4_0000_0000_0000,
    ensures
        q == num as int / d as int,
{
    if num >= 0 {
        let q: u64 = (num as u64) / (d as u64);
        q as i64
    } else {
        let m: u64 = (-num) as u64;
        let qq: u64 = (m + (d as u64) - 1) / (d as u64);
        proof {
            let mi = m as int;
            let di = d as int;
            let qi = (mi + di - 1) / di;
            let ri = (mi + di - 1) % di;
            assert(mi + di - 1 == qi * di + ri) by {
                vstd::arithmetic::div_mod::lemma_fundamental_div_mod(mi + di - 1, di);
            }
            assert(0 <= ri < di) by {
                vstd::arithmetic::div_mod::lemma_mod_division_less_than_divisor(mi + di - 1, di);
                vstd::arithmetic::div_mod::lemma_mod_bound(mi + di - 1, di);
            }
            assert(-mi == (-qi) * di + (di - 1 - ri)) by (nonlinear_arith)
                requires
                    mi + di - 1 == qi * di + ri,
            ;
            vstd::arithmetic::div_mod::lemma_fundamental_div_mod_converse_div(
                -mi, di, -qi, di - 1 - ri);
        }
        -(qq as i64)
    }
}

/// Forward mapping into tile-local space, applied to every vertex of every
/// geometry.  No clipping happens here; out-of-range results are kept for
/// the encoder's buffering policy to clamp.  Deterministic and
/// side-effect-free, so identical input always yields identical tiles.
pub fn to_tile_local(wx: i64, wy: i64, b: &BoundingBox, extent: u32) -> (r: (i64, i64))
    requires
        b.wf(),
        0 <= wx <= WORLD_SIZE,
        0 <= wy <= WORLD_SIZE,
        1 <= extent <= MAX_EXTENT,
    ensures
        r.0 == local_x(wx as int, *b, extent as int),
        r.1 == local_y(wy as int, *b, extent as int),
{
    let e: i64 = b.max_x - b.min_x;
    proof {
        assert((wx - b.min_x) * (extent as int) <= WORLD_SIZE * MAX_EXTENT) by (nonlinear_arith)
            requires
                wx - b.min_x <= WORLD_SIZE,
                1 <= extent <= MAX_EXTENT,
        ;
        assert((wx - b.min_x) * (extent as int) >= -(WORLD_SIZE * MAX_EXTENT)) by (nonlinear_arith)
            requires
                wx - b.min_x >= -WORLD_SIZE,
                1 <= extent <= MAX_EXTENT,
        ;
        assert((b.max_y - wy) * (extent as int) <= WORLD_SIZE * MAX_EXTENT) by (nonlinear_arith)
            requires
                b.max_y - wy <= WORLD_SIZE,
                1 <= extent <= MAX_EXTENT,
        ;
        assert((b.max_y - wy) * (extent as int) >= -(WORLD_SIZE * MAX_EXTENT)) by (nonlinear_arith)
            requires
                b.max_y - wy >= -WORLD_SIZE,
                1 <= extent <= MAX_EXTENT,
        ;
    }
    let num_x: i64 = (wx - b.min_x) * (extent as i64) + e / 2;
    let num_y: i64 = (b.max_y - wy) * (extent as i64) + e / 2;
    let tx: i64 = floor_div(num_x, e);
    let ty: i64 = floor_div(num_y, e);
    (tx, ty)
}

/// The four children of a tile at the next zoom level are strictly nested
/// inside it: each child box lies within the parent box and its edge is
/// half the parent's.
pub proof fn lemma_bounding_box_nested(parent: TileAddress, child: TileAddress)
    requires
        parent.wf(),
        child.wf(),
        child.zoom == parent.zoom + 1,
        child.column == 2 * parent.column || child.column == 2 * parent.column + 1,
        child.row == 2 * parent.row || child.row == 2 * parent.row + 1,
    ensures
        2 * edge_len(child.zoom as nat) == edge_len(parent.zoom as nat),
        bbox_min_x(parent) <= bbox_min_x(child),
        bbox_min_x(child) + edge_len(child.zoom as nat)
            <= bbox_min_x(parent) + edge_len(parent.zoom as nat),
        bbox_max_y(child) <= bbox_max_y(parent),
        bbox_max_y(parent) - edge_len(parent.zoom as nat)
            <= bbox_max_y(child) - edge_len(child.zoom as nat),
{
    let ep = edge_len(parent.zoom as nat);
    let ec = edge_len(child.zoom as nat);
    assert(ec > 0) by {
        lemma_pow2_pos((32 - child.zoom) as nat);
    }
    assert(2 * ec == ep) by {
        lemma_pow2_unfold((32 - parent.zoom) as nat);
    }
    let cp = parent.column as int;
    let cc = child.column as int;
    let rp = parent.row as int;
    let rc = child.row as int;
    assert(cp * ep == (2 * cp) * ec && (cp + 1) * ep == (2 * cp + 2) * ec) by (nonlinear_arith)
        requires
            2 * ec == ep,
    ;
    assert(rp * ep == (2 * rp) * ec && (rp + 1) * ep == (2 * rp + 2) * ec) by (nonlinear_arith)
        requires
            2 * ec == ep,
    ;
    assert((2 * cp) * ec <= cc * ec && (cc + 1) * ec <= (2 * cp + 2) * ec) by (nonlinear_arith)
        requires
            2 * cp <= cc <= 2 * cp + 1,
            ec > 0,
    ;
    assert((2 * rp) * ec <= rc * ec && (rc + 1) * ec <= (2 * rp + 2) * ec) by (nonlinear_arith)
        requires
            2 * rp <= rc <= 2 * rp + 1,
            ec > 0,
    ;
    assert(cc * ec + ec == (cc + 1) * ec && rc * ec + ec == (rc + 1) * ec) by (nonlinear_arith);
    assert(cp * ep + ep == (cp + 1) * ep && rp * ep + ep == (rp + 1) * ep) by (nonlinear_arith);
}

} // verus!
