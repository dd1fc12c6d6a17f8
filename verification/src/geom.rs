//! Geometry encoder: world geometries to MVT command streams.
//!
//! Every vertex runs through the coordinate transform, is clamped to one
//! tile width of buffer around the tile, and the resulting tile-local
//! points are emitted as MoveTo / LineTo / ClosePath commands with
//! zig-zag-encoded deltas.  Polygon rings are re-oriented so exterior
//! rings wind clockwise in tile space (positive signed area with the
//! flipped `y` axis) and holes wind the opposite way; degenerate parts
//! are dropped rather than failing the whole tile.

use vstd::prelude::*;

use crate::codec::{
    zigzag, unzigzag, zz_u32, zigzag_encode, command_integer, make_command,
    CMD_MOVE_TO, CMD_LINE_TO, CMD_CLOSE_PATH,
};
use crate::error::Error;
use crate::transform::{
    BoundingBox, MAX_EXTENT, WORLD_SIZE, local_x, local_y, to_tile_local,
};

verus! {

/// Largest vertex count one geometry part may carry, so command counts
/// fit the 29 bits the command integer leaves for them.
pub const MAX_PART_LEN: usize = 0x0FFF_FFFF;

/// A vertex in world units.
#[derive(Debug, Clone, Copy, PartialEq, Eq, Structural)]
pub struct WorldPoint {
    pub x: i64,
    pub y: i64,
}

/// A vertex in tile-local units, after projection and clamping.
#[derive(Debug, Clone, Copy, PartialEq, Eq, Structural)]
pub struct TilePoint {
    pub x: i64,
    pub y: i64,
}

impl WorldPoint {
    /// The vertex lies inside the projected world square.
    pub open spec fn wf(self) -> bool {
        0 <= self.x <= WORLD_SIZE && 0 <= self.y <= WORLD_SIZE
    }
}

/// Clamped tile coordinates stay within one `extent` of buffer around the
/// tile on each side.
pub open spec fn tp_wf(p: TilePoint, extent: int) -> bool {
    -extent <= p.x <= 2 * extent && -extent <= p.y <= 2 * extent
}

/// Bound that holds for every clamped point at any accepted extent.
pub open spec fn tp_bounded(p: TilePoint) -> bool {
    -16384 <= p.x <= 16384 && -16384 <= p.y <= 16384
}

/// Buffering policy: out-of-tile coordinates are clamped to at most one
/// tile width outside the tile proper.
pub open spec fn clamp_val(v: int, extent: int) -> int {
    if v < -extent {
        -extent
    } else if v > 2 * extent {
        2 * extent
    } else {
        v
    }
}

/// One world vertex after projection and clamping.
pub open spec fn tile_pt_spec(p: WorldPoint, b: BoundingBox, extent: int) -> TilePoint {
    TilePoint {
        x: clamp_val(local_x(p.x as int, b, extent), extent) as i64,
        y: clamp_val(local_y(p.y as int, b, extent), extent) as i64,
    }
}

/// A whole part after projection and clamping.
pub open spec fn proj_pts(pts: Seq<WorldPoint>, b: BoundingBox, extent: int) -> Seq<TilePoint> {
    pts.map_values(|p: WorldPoint| tile_pt_spec(p, b, extent))
}

/// Executable clamp.
pub fn clamp_coord(v: i64, extent: u32) -> (r: i64)
    requires
        1 <= extent <= MAX_EXTENT,
    ensures
        r == clamp_val(v as int, extent as int),
{
    let e: i64 = extent as i64;
    if v < -e {
        -e
    } else if v > 2 * e {
        2 * e
    } else {
        v
    }
}

/// Projects and clamps one vertex.
pub fn project_point(p: &WorldPoint, b: &BoundingBox, extent: u32) -> (r: TilePoint)
    requires
        b.wf(),
        p.wf(),
        1 <= extent <= MAX_EXTENT,
    ensures
        r == tile_pt_spec(*p, *b, extent as int),
        tp_wf(r, extent as int),
        tp_bounded(r),
{
    let (tx, ty) = to_tile_local(p.x, p.y, b, extent);
    TilePoint { x: clamp_coord(tx, extent), y: clamp_coord(ty, extent) }
}

/// Projects and clamps a whole part.
pub fn project_part(pts: &Vec<WorldPoint>, b: &BoundingBox, extent: u32) -> (r: Vec<TilePoint>)
    requires
        b.wf(),
        1 <= extent <= MAX_EXTENT,
        forall|i: int| 0 <= i < pts@.len() ==> (#[trigger] pts@[i]).wf(),
    ensures
        r@ == proj_pts(pts@, *b, extent as int),
        forall|i: int| 0 <= i < r@.len() ==> tp_bounded(#[trigger] r@[i]),
{
    let mut out: Vec<TilePoint> = Vec::new();
    let mut i: usize = 0;
    while i < pts.len()
        invariant
            b.wf(),
            1 <= extent <= MAX_EXTENT,
            forall|j: int| 0 <= j < pts@.len() ==> (#[trigger] pts@[j]).wf(),
            0 <= i <= pts@.len(),
            out@ == proj_pts(pts@.take(i as int), *b, extent as int),
            forall|j: int| 0 <= j < out@.len() ==> tp_bounded(#[trigger] out@[j]),
        decreases pts@.len() - i,
    {
        let tp = project_point(&pts[i], b, extent);
        out.push(tp);
        proof {
            assert(out@ =~= proj_pts(pts@.take(i as int + 1), *b, extent as int));
        }
        i = i + 1;
    }
    proof {
        assert(pts@.take(pts@.len() as int) =~= pts@);
    }
    out
}

/// Cross product term of the shoelace formula.
pub open spec fn cross(a: TilePoint, b: TilePoint) -> int {
    a.x * b.y - b.x * a.y
}

/// Shoelace sum over the open polyline `r[0] .. r[n-1]`.
pub open spec fn open_area_upto(r: Seq<TilePoint>, n: int) -> int
    decreases n,
{
    if n <= 1 {
        0
    } else {
        open_area_upto(r, n - 1) + cross(r[n - 2], r[n - 1])
    }
}

/// Twice the signed area of the ring `r` (closing edge included).  In
/// tile space, where `y` grows downward, a positive value means the ring
/// winds clockwise on screen.
pub open spec fn area2(r: Seq<TilePoint>) -> int {
    if r.len() == 0 {
        0
    } else {
        open_area_upto(r, r.len() as int) + cross(r.last(), r[0])
    }
}

proof fn lemma_rev_partial(r: Seq<TilePoint>, k: int)
    requires
        1 <= k <= r.len(),
    ensures
        open_area_upto(r.reverse(), k)
            == open_area_upto(r, r.len() - k + 1) - open_area_upto(r, r.len() as int),
    decreases k,
{
    let n = r.len() as int;
    if k == 1 {
    } else {
        lemma_rev_partial(r, k - 1);
        assert(r.reverse()[k - 2] == r[n - k + 1]);
        assert(r.reverse()[k - 1] == r[n - k]);
        assert(open_area_upto(r, n - k + 2)
            == open_area_upto(r, n - k + 1) + cross(r[n - k], r[n - k + 1]));
        assert(cross(r[n - k + 1], r[n - k]) == -cross(r[n - k], r[n - k + 1]));
    }
}

/// Reversing a ring negates its signed area.
pub proof fn lemma_area2_reverse(r: Seq<TilePoint>)
    ensures
        area2(r.reverse()) == -area2(r),
{
    let n = r.len() as int;
    if n == 0 {
        assert(r.reverse() =~= r);
    } else {
        lemma_rev_partial(r, n);
        assert(r.reverse()[n - 1] == r[0]);
        assert(r.reverse()[0] == r[n - 1]);
        assert(open_area_upto(r, 1) == 0);
        assert(cross(r[0], r[n - 1]) == -cross(r[n - 1], r[0]));
    }
}

/// Drops the duplicated closing vertex databases usually supply.
pub open spec fn strip_closing(r: Seq<TilePoint>) -> Seq<TilePoint> {
    if r.len() >= 2 && r.last() == r[0] {
        r.drop_last()
    } else {
        r
    }
}

/// A ring survives encoding when, after stripping, it still has three
/// vertices and nonzero area; anything else collapsed under rounding and
/// is silently dropped.
pub open spec fn ring_kept(r: Seq<TilePoint>) -> bool {
    strip_closing(r).len() >= 3 && area2(strip_closing(r)) != 0
}

/// The ring as emitted: exterior rings wind positively, holes negatively;
/// wrongly wound input is reversed, not rejected.
pub open spec fn normalize_ring(r: Seq<TilePoint>, exterior: bool) -> Seq<TilePoint>
    recommends
        ring_kept(r),
{
    let s = strip_closing(r);
    if (area2(s) > 0) == exterior {
        s
    } else {
        s.reverse()
    }
}

/// Winding law: an emitted exterior ring has positive signed area in tile
/// space (clockwise on screen); an emitted hole has negative signed area,
/// the opposite winding of its exterior.
pub proof fn lemma_ring_winding(r: Seq<TilePoint>, exterior: bool)
    requires
        ring_kept(r),
    ensures
        exterior ==> area2(normalize_ring(r, true)) > 0,
        !exterior ==> area2(normalize_ring(r, false)) < 0,
{
    lemma_area2_reverse(strip_closing(r));
}

/// Executable shoelace sum, closing edge included.
pub fn ring_area2(r: &Vec<TilePoint>) -> (a: i128)
    requires
        forall|i: int| 0 <= i < r@.len() ==> tp_bounded(#[trigger] r@[i]),
    ensures
        a == area2(r@),
{
    if r.len() == 0 {
        return 0;
    }
    let mut acc: i128 = 0;
    let mut i: usize = 1;
    while i < r.len()
        invariant
            1 <= i <= r@.len(),
            forall|j: int| 0 <= j < r@.len() ==> tp_bounded(#[trigger] r@[j]),
            acc == open_area_upto(r@, i as int),
            -0x4000_0000 * (i as int) <= acc <= 0x4000_0000 * (i as int),
        decreases r@.len() - i,
    {
        let c: i128 = cross_exec(&r[i - 1], &r[i]);
        proof {
            assert(0x4000_0000 * (i as int) + 0x4000_0000 == 0x4000_0000 * (i as int + 1))
                by (nonlinear_arith);
            assert((i as int) * 0x4000_0000 <= 0x4000_0000_0000_0000_0000_0000) by (nonlinear_arith)
                requires
                    0 <= i as int <= 0x1_0000_0000_0000_0000,
            ;
        }
        acc = acc + c;
        i = i + 1;
    }
    let c: i128 = cross_exec(&r[r.len() - 1], &r[0]);
    proof {
        assert((i as int) * 0x4000_0000 <= 0x4000_0000_0000_0000_0000_0000) by (nonlinear_arith)
            requires
                0 <= i as int <= 0x1_0000_0000_0000_0000,
        ;
    }
    acc + c
}

/// One cross product term, in machine arithmetic.
fn cross_exec(a: &TilePoint, b: &TilePoint) -> (c: i128)
    requires
        tp_bounded(*a),
        tp_bounded(*b),
    ensures
        c == cross(*a, *b),
        -0x4000_0000 <= c <= 0x4000_0000,
{
    proof {
        assert(-0x2000_0000 <= (a.x as int) * (b.y as int) <= 0x2000_0000) by (nonlinear_arith)
            requires
                -16384 <= a.x as int <= 16384,
                -16384 <= b.y as int <= 16384,
        ;
        assert(-0x2000_0000 <= (b.x as int) * (a.y as int) <= 0x2000_0000) by (nonlinear_arith)
            requires
                -16384 <= b.x as int <= 16384,
                -16384 <= a.y as int <= 16384,
        ;
    }
    (a.x as i128) * (b.y as i128) - (b.x as i128) * (a.y as i128)
}

/// The per-feature cursor starts at the tile origin.
pub open spec fn start_cursor() -> TilePoint {
    TilePoint { x: 0, y: 0 }
}

/// Parameters of a MoveTo of one point: delta from the cursor.
pub open spec fn move_params(pts: Seq<TilePoint>, cursor: TilePoint) -> Seq<u32>
    recommends
        pts.len() >= 1,
{
    seq![zz_u32(pts[0].x - cursor.x), zz_u32(pts[0].y - cursor.y)]
}

/// Parameters of the points `1 .. n`, each a delta from its predecessor.
pub open spec fn tail_params(pts: Seq<TilePoint>, n: int) -> Seq<u32>
    decreases n,
{
    if n <= 1 {
        Seq::empty()
    } else {
        tail_params(pts, n - 1)
            + seq![
                zz_u32(pts[n - 1].x - pts[n - 2].x),
                zz_u32(pts[n - 1].y - pts[n - 2].y),
            ]
    }
}

/// A line survives encoding when it has two distinct vertices left after
/// rounding; anything shorter is dropped.
pub open spec fn line_valid(pts: Seq<TilePoint>) -> bool {
    pts.len() >= 2 && exists|i: int| 0 <= i < pts.len() && #[trigger] pts[i] != pts[0]
}

/// Command stream of a point run (Point and MultiPoint geometries).
pub open spec fn point_stream(pts: Seq<TilePoint>, cursor: TilePoint) -> Seq<u32> {
    if pts.len() == 0 {
        Seq::empty()
    } else {
        seq![command_integer(CMD_MOVE_TO, pts.len() as int)]
            + move_params(pts, cursor)
            + tail_params(pts, pts.len() as int)
    }
}

/// Command stream of one linestring part, empty if the part is degenerate.
pub open spec fn line_stream(pts: Seq<TilePoint>, cursor: TilePoint) -> Seq<u32> {
    if !line_valid(pts) {
        Seq::empty()
    } else {
        seq![command_integer(CMD_MOVE_TO, 1)] + move_params(pts, cursor)
            + seq![command_integer(CMD_LINE_TO, pts.len() - 1)]
            + tail_params(pts, pts.len() as int)
    }
}

/// Command stream of one already-normalized ring.
pub open spec fn ring_stream(pts: Seq<TilePoint>, cursor: TilePoint) -> Seq<u32>
    recommends
        pts.len() >= 3,
{
    seq![command_integer(CMD_MOVE_TO, 1)] + move_params(pts, cursor)
        + seq![command_integer(CMD_LINE_TO, pts.len() - 1)]
        + tail_params(pts, pts.len() as int)
        + seq![command_integer(CMD_CLOSE_PATH, 1)]
}

/// Cursor after a line part: advances only if the part was emitted.
pub open spec fn after_line(pts: Seq<TilePoint>, cursor: TilePoint) -> TilePoint {
    if line_valid(pts) {
        pts.last()
    } else {
        cursor
    }
}

/// Cursor after a ring: advances only if the ring was emitted.
pub open spec fn after_ring(r: Seq<TilePoint>, exterior: bool, cursor: TilePoint) -> TilePoint {
    if ring_kept(r) {
        normalize_ring(r, exterior).last()
    } else {
        cursor
    }
}

/// Cursor after the first `k` parts of a multi-line.
pub open spec fn lines_cursor(parts: Seq<Seq<TilePoint>>, cursor: TilePoint, k: int) -> TilePoint
    decreases k,
{
    if k <= 0 {
        cursor
    } else {
        after_line(parts[k - 1], lines_cursor(parts, cursor, k - 1))
    }
}

/// Command stream of the first `k` parts of a multi-line.
pub open spec fn lines_stream(parts: Seq<Seq<TilePoint>>, cursor: TilePoint, k: int) -> Seq<u32>
    decreases k,
{
    if k <= 0 {
        Seq::empty()
    } else {
        lines_stream(parts, cursor, k - 1)
            + line_stream(parts[k - 1], lines_cursor(parts, cursor, k - 1))
    }
}

/// Cursor after the first `k` rings of one polygon; ring 0 is the exterior.
pub open spec fn rings_cursor(rings: Seq<Seq<TilePoint>>, cursor: TilePoint, k: int) -> TilePoint
    decreases k,
{
    if k <= 0 {
        cursor
    } else {
        after_ring(rings[k - 1], k - 1 == 0, rings_cursor(rings, cursor, k - 1))
    }
}

/// Command stream of the first `k` rings of one polygon.
pub open spec fn rings_stream(rings: Seq<Seq<TilePoint>>, cursor: TilePoint, k: int) -> Seq<u32>
    decreases k,
{
    if k <= 0 {
        Seq::empty()
    } else {
        let prev = rings_stream(rings, cursor, k - 1);
        let at = rings_cursor(rings, cursor, k - 1);
        if ring_kept(rings[k - 1]) {
            prev + ring_stream(normalize_ring(rings[k - 1], k - 1 == 0), at)
        } else {
            prev
        }
    }
}

/// Cursor after the first `k` polygons of a multi-polygon.
pub open spec fn polys_cursor(polys: Seq<Seq<Seq<TilePoint>>>, cursor: TilePoint, k: int) -> TilePoint
    decreases k,
{
    if k <= 0 {
        cursor
    } else {
        rings_cursor(polys[k - 1], polys_cursor(polys, cursor, k - 1), polys[k - 1].len() as int)
    }
}

/// Command stream of the first `k` polygons of a multi-polygon.
pub open spec fn polys_stream(polys: Seq<Seq<Seq<TilePoint>>>, cursor: TilePoint, k: int) -> Seq<u32>
    decreases k,
{
    if k <= 0 {
        Seq::empty()
    } else {
        polys_stream(polys, cursor, k - 1)
            + rings_stream(polys[k - 1], polys_cursor(polys, cursor, k - 1),
                polys[k - 1].len() as int)
    }
}

/// Projection of every part of a multi-part geometry.
pub open spec fn proj_parts(parts: Seq<Vec<WorldPoint>>, b: BoundingBox, extent: int)
    -> Seq<Seq<TilePoint>> {
    parts.map_values(|v: Vec<WorldPoint>| proj_pts(v@, b, extent))
}

/// Projection of every ring of every polygon.
pub open spec fn proj_polys(polys: Seq<Vec<Vec<WorldPoint>>>, b: BoundingBox, extent: int)
    -> Seq<Seq<Seq<TilePoint>>> {
    polys.map_values(|v: Vec<Vec<WorldPoint>>| proj_parts(v@, b, extent))
}

/// A raw geometry as a database row hands it over, in world units.
/// `Unsupported` carries the source's type code for geometries (such as
/// collections) the encoder does not handle.
#[derive(Debug, Clone)]
pub enum RawGeometry {
    Point(WorldPoint),
    MultiPoint(Vec<WorldPoint>),
    Linestring(Vec<WorldPoint>),
    MultiLinestring(Vec<Vec<WorldPoint>>),
    Polygon(Vec<Vec<WorldPoint>>),
    MultiPolygon(Vec<Vec<Vec<WorldPoint>>>),
    Unsupported(u32),
}

/// Every vertex in the world square; part lengths small enough for
/// command counts.
pub open spec fn pts_wf(pts: Seq<WorldPoint>) -> bool {
    pts.len() <= MAX_PART_LEN && forall|i: int| 0 <= i < pts.len() ==> (#[trigger] pts[i]).wf()
}

pub open spec fn parts_wf(parts: Seq<Vec<WorldPoint>>) -> bool {
    parts.len() <= MAX_PART_LEN && forall|i: int| 0 <= i < parts.len() ==> pts_wf(#[trigger] parts[i]@)
}

pub open spec fn polys_wf(polys: Seq<Vec<Vec<WorldPoint>>>) -> bool {
    polys.len() <= MAX_PART_LEN
        && forall|i: int| 0 <= i < polys.len() ==> parts_wf(#[trigger] polys[i]@)
}

impl RawGeometry {
    pub open spec fn wf(self) -> bool {
        match self {
            RawGeometry::Point(p) => p.wf(),
            RawGeometry::MultiPoint(pts) => pts_wf(pts@),
            RawGeometry::Linestring(pts) => pts_wf(pts@),
            RawGeometry::MultiLinestring(parts) => parts_wf(parts@),
            RawGeometry::Polygon(rings) => parts_wf(rings@),
            RawGeometry::MultiPolygon(polys) => polys_wf(polys@),
            RawGeometry::Unsupported(_) => true,
        }
    }

    /// MVT geometry type tag: 1 point, 2 linestring, 3 polygon.
    pub open spec fn type_tag(self) -> u32 {
        match self {
            RawGeometry::Point(_) => 1,
            RawGeometry::MultiPoint(_) => 1,
            RawGeometry::Linestring(_) => 2,
            RawGeometry::MultiLinestring(_) => 2,
            RawGeometry::Polygon(_) => 3,
            RawGeometry::MultiPolygon(_) => 3,
            RawGeometry::Unsupported(_) => 0,
        }
    }
}

/// The full command stream of a supported geometry.
pub open spec fn geom_stream(g: RawGeometry, b: BoundingBox, extent: int) -> Seq<u32> {
    match g {
        RawGeometry::Point(p) => point_stream(seq![tile_pt_spec(p, b, extent)], start_cursor()),
        RawGeometry::MultiPoint(pts) => point_stream(proj_pts(pts@, b, extent), start_cursor()),
        RawGeometry::Linestring(pts) => line_stream(proj_pts(pts@, b, extent), start_cursor()),
        RawGeometry::MultiLinestring(parts) => lines_stream(
            proj_parts(parts@, b, extent), start_cursor(), parts@.len() as int),
        RawGeometry::Polygon(rings) => rings_stream(
            proj_parts(rings@, b, extent), start_cursor(), rings@.len() as int),
        RawGeometry::MultiPolygon(polys) => polys_stream(
            proj_polys(polys@, b, extent), start_cursor(), polys@.len() as int),
        RawGeometry::Unsupported(_) => Seq::empty(),
    }
}

/// One geometry, encoded: its MVT type tag and command stream.
#[derive(Debug, Clone)]
pub struct EncodedGeom {
    pub geom_type: u32,
    pub commands: Vec<u32>,
}

/// Appends the delta parameters of points `1 ..` to the stream.
fn emit_tail(out: &mut Vec<u32>, pts: &Vec<TilePoint>)
    requires
        pts@.len() >= 1,
        forall|i: int| 0 <= i < pts@.len() ==> tp_bounded(#[trigger] pts@[i]),
    ensures
        final(out)@ == old(out)@ + tail_params(pts@, pts@.len() as int),
{
    let mut i: usize = 1;
    proof {
        assert(out@ =~= old(out)@ + tail_params(pts@, 1));
    }
    while i < pts.len()
        invariant
            1 <= i <= pts@.len(),
            forall|j: int| 0 <= j < pts@.len() ==> tp_bounded(#[trigger] pts@[j]),
            out@ == old(out)@ + tail_params(pts@, i as int),
        decreases pts@.len() - i,
    {
        let dx: i64 = pts[i].x - pts[i - 1].x;
        let dy: i64 = pts[i].y - pts[i - 1].y;
        out.push(zigzag_encode(dx));
        out.push(zigzag_encode(dy));
        proof {
            assert(tail_params(pts@, i as int + 1) == tail_params(pts@, i as int)
                + seq![
                    zz_u32(pts@[i as int].x - pts@[i as int - 1].x),
                    zz_u32(pts@[i as int].y - pts@[i as int - 1].y),
                ]);
            assert(out@ =~= old(out)@ + tail_params(pts@, i as int + 1));
        }
        i = i + 1;
    }
}

/// Encodes a run of points as one MoveTo command.
fn encode_point_run(pts: &Vec<TilePoint>, cursor: TilePoint) -> (r: Vec<u32>)
    requires
        pts@.len() <= MAX_PART_LEN,
        forall|i: int| 0 <= i < pts@.len() ==> tp_bounded(#[trigger] pts@[i]),
        tp_bounded(cursor),
    ensures
        r@ == point_stream(pts@, cursor),
{
    let mut out: Vec<u32> = Vec::new();
    if pts.len() == 0 {
        proof {
            assert(out@ =~= point_stream(pts@, cursor));
        }
        return out;
    }
    out.push(make_command(CMD_MOVE_TO, pts.len() as u32));
    out.push(zigzag_encode(pts[0].x - cursor.x));
    out.push(zigzag_encode(pts[0].y - cursor.y));
    proof {
        assert(out@ =~= seq![command_integer(CMD_MOVE_TO, pts@.len() as int)]
            + move_params(pts@, cursor) + tail_params(pts@, 1));
    }
    emit_tail(&mut out, pts);
    proof {
        assert(out@ =~= point_stream(pts@, cursor));
    }
    out
}

/// True when some vertex differs from the first.
fn two_distinct(pts: &Vec<TilePoint>) -> (r: bool)
    requires
        pts@.len() >= 1,
    ensures
        r == exists|i: int| 0 <= i < pts@.len() && #[trigger] pts@[i] != pts@[0],
{
    let mut i: usize = 1;
    while i < pts.len()
        invariant
            1 <= i <= pts@.len(),
            forall|j: int| 0 <= j < i ==> #[trigger] pts@[j] == pts@[0],
        decreases pts@.len() - i,
    {
        if pts[i].x != pts[0].x || pts[i].y != pts[0].y {
            return true;
        }
        i = i + 1;
    }
    false
}

/// Appends one linestring part to the stream; returns the new cursor.
fn encode_line_part(out: &mut Vec<u32>, pts: &Vec<TilePoint>, cursor: TilePoint) -> (nc: TilePoint)
    requires
        pts@.len() <= MAX_PART_LEN,
        forall|i: int| 0 <= i < pts@.len() ==> tp_bounded(#[trigger] pts@[i]),
        tp_bounded(cursor),
    ensures
        final(out)@ == old(out)@ + line_stream(pts@, cursor),
        nc == after_line(pts@, cursor),
        tp_bounded(nc),
{
    if pts.len() < 2 {
        proof {
            assert(out@ =~= old(out)@ + line_stream(pts@, cursor));
        }
        return cursor;
    }
    if !two_distinct(pts) {
        proof {
            assert(out@ =~= old(out)@ + line_stream(pts@, cursor));
        }
        return cursor;
    }
    out.push(make_command(CMD_MOVE_TO, 1));
    out.push(zigzag_encode(pts[0].x - cursor.x));
    out.push(zigzag_encode(pts[0].y - cursor.y));
    out.push(make_command(CMD_LINE_TO, (pts.len() - 1) as u32));
    proof {
        assert(out@ =~= old(out)@
            + (seq![command_integer(CMD_MOVE_TO, 1)] + move_params(pts@, cursor)
                + seq![command_integer(CMD_LINE_TO, pts@.len() - 1)]
                + tail_params(pts@, 1)));
    }
    emit_tail(out, pts);
    proof {
        assert(out@ =~= old(out)@ + line_stream(pts@, cursor));
    }
    pts[pts.len() - 1]
}

/// Copies the ring without its duplicated closing vertex.
fn strip_closing_exec(ring: &Vec<TilePoint>) -> (r: Vec<TilePoint>)
    requires
        forall|i: int| 0 <= i < ring@.len() ==> tp_bounded(#[trigger] ring@[i]),
    ensures
        r@ == strip_closing(ring@),
        forall|i: int| 0 <= i < r@.len() ==> tp_bounded(#[trigger] r@[i]),
{
    let n = ring.len();
    let m: usize = if n >= 2
        && ring[n - 1].x == ring[0].x && ring[n - 1].y == ring[0].y { n - 1 } else { n };
    let mut out: Vec<TilePoint> = Vec::new();
    let mut i: usize = 0;
    while i < m
        invariant
            0 <= i <= m <= ring@.len(),
            out@ == ring@.take(i as int),
        decreases m - i,
    {
        out.push(ring[i]);
        proof {
            assert(out@ =~= ring@.take(i as int + 1));
        }
        i = i + 1;
    }
    proof {
        assert(out@ =~= strip_closing(ring@));
    }
    out
}

/// Copies the ring in reverse vertex order.
fn reverse_pts(pts: &Vec<TilePoint>) -> (r: Vec<TilePoint>)
    requires
        forall|i: int| 0 <= i < pts@.len() ==> tp_bounded(#[trigger] pts@[i]),
    ensures
        r@ == pts@.reverse(),
        forall|i: int| 0 <= i < r@.len() ==> tp_bounded(#[trigger] r@[i]),
{
    let n = pts.len();
    let mut out: Vec<TilePoint> = Vec::new();
    let mut i: usize = 0;
    while i < n
        invariant
            0 <= i <= n == pts@.len(),
            out@.len() == i,
            forall|j: int| 0 <= j < i ==> out@[j] == pts@[n - 1 - j],
        decreases n - i,
    {
        out.push(pts[n - 1 - i]);
        i = i + 1;
    }
    proof {
        assert(out@ =~= pts@.reverse());
    }
    out
}

/// Appends one ring to the stream, normalizing its winding (`exterior`
/// rings positive, holes negative); returns the new cursor.
fn encode_ring_part(out: &mut Vec<u32>, ring: &Vec<TilePoint>, exterior: bool, cursor: TilePoint)
    -> (nc: TilePoint)
    requires
        ring@.len() <= MAX_PART_LEN,
        forall|i: int| 0 <= i < ring@.len() ==> tp_bounded(#[trigger] ring@[i]),
        tp_bounded(cursor),
    ensures
        ring_kept(ring@) ==> final(out)@ == old(out)@
            + ring_stream(normalize_ring(ring@, exterior), cursor),
        !ring_kept(ring@) ==> final(out)@ == old(out)@,
        nc == after_ring(ring@, exterior, cursor),
        tp_bounded(nc),
{
    let s = strip_closing_exec(ring);
    if s.len() < 3 {
        return cursor;
    }
    let a = ring_area2(&s);
    if a == 0 {
        return cursor;
    }
    let keep: bool = (a > 0) == exterior;
    let r_final: Vec<TilePoint> = if keep { s } else { reverse_pts(&s) };
    let pts = &r_final;
    out.push(make_command(CMD_MOVE_TO, 1));
    out.push(zigzag_encode(pts[0].x - cursor.x));
    out.push(zigzag_encode(pts[0].y - cursor.y));
    out.push(make_command(CMD_LINE_TO, (pts.len() - 1) as u32));
    proof {
        assert(out@ =~= old(out)@
            + (seq![command_integer(CMD_MOVE_TO, 1)] + move_params(pts@, cursor)
                + seq![command_integer(CMD_LINE_TO, pts@.len() - 1)]
                + tail_params(pts@, 1)));
    }
    emit_tail(out, pts);
    out.push(make_command(CMD_CLOSE_PATH, 1));
    proof {
        assert(pts@ == normalize_ring(ring@, exterior));
        assert(out@ =~= old(out)@ + ring_stream(normalize_ring(ring@, exterior), cursor));
    }
    pts[pts.len() - 1]
}

/// Appends every ring of one polygon; ring 0 is the exterior.
fn encode_polygon_rings(out: &mut Vec<u32>, rings: &Vec<Vec<WorldPoint>>, b: &BoundingBox,
    extent: u32, cursor: TilePoint) -> (nc: TilePoint)
    requires
        b.wf(),
        1 <= extent <= MAX_EXTENT,
        parts_wf(rings@),
        tp_bounded(cursor),
    ensures
        final(out)@ == old(out)@ + rings_stream(
            proj_parts(rings@, *b, extent as int), cursor, rings@.len() as int),
        nc == rings_cursor(proj_parts(rings@, *b, extent as int), cursor, rings@.len() as int),
        tp_bounded(nc),
{
    let ghost pr = proj_parts(rings@, *b, extent as int);
    let mut cur: TilePoint = cursor;
    let mut i: usize = 0;
    proof {
        assert(out@ =~= old(out)@ + rings_stream(pr, cursor, 0));
    }
    while i < rings.len()
        invariant
            b.wf(),
            1 <= extent <= MAX_EXTENT,
            parts_wf(rings@),
            pr == proj_parts(rings@, *b, extent as int),
            0 <= i <= rings@.len(),
            out@ == old(out)@ + rings_stream(pr, cursor, i as int),
            cur == rings_cursor(pr, cursor, i as int),
            tp_bounded(cur),
        decreases rings@.len() - i,
    {
        let tp = project_part(&rings[i], b, extent);
        proof {
            assert(pr[i as int] == proj_pts(rings@[i as int]@, *b, extent as int));
        }
        cur = encode_ring_part(out, &tp, i == 0, cur);
        proof {
            assert(out@ =~= old(out)@ + rings_stream(pr, cursor, i as int + 1));
        }
        i = i + 1;
    }
    cur
}

/// Converts one geometry to its MVT command stream.  Fails exactly on the
/// geometry types the encoder does not support; degenerate parts come
/// back as an empty (or shortened) stream instead of an error.
pub fn encode_geometry(g: &RawGeometry, b: &BoundingBox, extent: u32)
    -> (r: Result<EncodedGeom, Error>)
    requires
        b.wf(),
        g.wf(),
        1 <= extent <= MAX_EXTENT,
    ensures
        r is Err <==> *g is Unsupported,
        *g matches RawGeometry::Unsupported(c)
            ==> r matches Err(e) && e == Error::UnsupportedGeometryType(c),
        r matches Ok(eg) ==> eg.geom_type == g.type_tag()
            && eg.commands@ == geom_stream(*g, *b, extent as int),
{
    let origin = TilePoint { x: 0, y: 0 };
    match g {
        RawGeometry::Point(p) => {
            let tp = project_point(p, b, extent);
            let mut v: Vec<TilePoint> = Vec::new();
            v.push(tp);
            proof {
                assert(v@ =~= seq![tile_pt_spec(*p, *b, extent as int)]);
            }
            let commands = encode_point_run(&v, origin);
            Ok(EncodedGeom { geom_type: 1, commands })
        }
        RawGeometry::MultiPoint(pts) => {
            let tp = project_part(pts, b, extent);
            let commands = encode_point_run(&tp, origin);
            Ok(EncodedGeom { geom_type: 1, commands })
        }
        RawGeometry::Linestring(pts) => {
            let tp = project_part(pts, b, extent);
            let mut commands: Vec<u32> = Vec::new();
            let _ = encode_line_part(&mut commands, &tp, origin);
            Ok(EncodedGeom { geom_type: 2, commands })
        }
        RawGeometry::MultiLinestring(parts) => {
            let ghost pp = proj_parts(parts@, *b, extent as int);
            let mut commands: Vec<u32> = Vec::new();
            let mut cur: TilePoint = origin;
            let mut i: usize = 0;
            proof {
                assert(commands@ =~= lines_stream(pp, start_cursor(), 0));
            }
            while i < parts.len()
                invariant
                    b.wf(),
                    1 <= extent <= MAX_EXTENT,
                    parts_wf(parts@),
                    pp == proj_parts(parts@, *b, extent as int),
                    0 <= i <= parts@.len(),
                    commands@ == lines_stream(pp, start_cursor(), i as int),
                    cur == lines_cursor(pp, start_cursor(), i as int),
                    tp_bounded(cur),
                decreases parts@.len() - i,
            {
                let tp = project_part(&parts[i], b, extent);
                proof {
                    assert(pp[i as int] == proj_pts(parts@[i as int]@, *b, extent as int));
                }
                cur = encode_line_part(&mut commands, &tp, cur);
                i = i + 1;
            }
            Ok(EncodedGeom { geom_type: 2, commands })
        }
        RawGeometry::Polygon(rings) => {
            let mut commands: Vec<u32> = Vec::new();
            let _ = encode_polygon_rings(&mut commands, rings, b, extent, origin);
            proof {
                assert(commands@ =~= geom_stream(*g, *b, extent as int));
            }
            Ok(EncodedGeom { geom_type: 3, commands })
        }
        RawGeometry::MultiPolygon(polys) => {
            let ghost ppj = proj_polys(polys@, *b, extent as int);
            let mut commands: Vec<u32> = Vec::new();
            let mut cur: TilePoint = origin;
            let mut i: usize = 0;
            proof {
                assert(commands@ =~= polys_stream(ppj, start_cursor(), 0));
            }
            while i < polys.len()
                invariant
                    b.wf(),
                    1 <= extent <= MAX_EXTENT,
                    polys_wf(polys@),
                    ppj == proj_polys(polys@, *b, extent as int),
                    0 <= i <= polys@.len(),
                    commands@ == polys_stream(ppj, start_cursor(), i as int),
                    cur == polys_cursor(ppj, start_cursor(), i as int),
                    tp_bounded(cur),
                decreases polys@.len() - i,
            {
                proof {
                    assert(ppj[i as int] == proj_parts(polys@[i as int]@, *b, extent as int));
                }
                cur = encode_polygon_rings(&mut commands, &polys[i], b, extent, cur);
                i = i + 1;
            }
            Ok(EncodedGeom { geom_type: 3, commands })
        }
        RawGeometry::Unsupported(c) => Err(Error::UnsupportedGeometryType(*c)),
    }
}

/// What a three-word command stream decodes to: the single MoveTo point.
pub open spec fn decode_point_spec(s: Seq<u32>) -> Option<(int, int)> {
    if s.len() == 3 && s[0] == command_integer(CMD_MOVE_TO, 1) {
        Some((unzigzag(s[1] as int), unzigzag(s[2] as int)))
    } else {
        None
    }
}

/// Decodes the command stream of a single-point geometry back to its
/// tile-local coordinate.
pub fn decode_single_point(cmds: &Vec<u32>) -> (r: Option<(i64, i64)>)
    ensures
        r matches Some(p) ==> decode_point_spec(cmds@) == Some((p.0 as int, p.1 as int)),
        r is None <==> decode_point_spec(cmds@) is None,
{
    if cmds.len() == 3 && cmds[0] == 9 {
        let x = crate::codec::zigzag_decode(cmds[1]);
        let y = crate::codec::zigzag_decode(cmds[2]);
        Some((x, y))
    } else {
        None
    }
}

/// Round-trip law: encoding a single point and decoding the resulting
/// command stream yields the same tile-local coordinate.
pub proof fn lemma_point_round_trip(p: WorldPoint, b: BoundingBox, extent: int)
    requires
        b.wf(),
        p.wf(),
        1 <= extent <= MAX_EXTENT,
    ensures
        decode_point_spec(geom_stream(RawGeometry::Point(p), b, extent))
            == Some((tile_pt_spec(p, b, extent).x as int, tile_pt_spec(p, b, extent).y as int)),
{
    let tp = tile_pt_spec(p, b, extent);
    let s = geom_stream(RawGeometry::Point(p), b, extent);
    assert(s =~= seq![command_integer(CMD_MOVE_TO, 1), zz_u32(tp.x as int), zz_u32(tp.y as int)]);
    assert(zigzag(tp.x as int) < 0x1_0000_0000 && zigzag(tp.x as int) >= 0);
    assert(zigzag(tp.y as int) < 0x1_0000_0000 && zigzag(tp.y as int) >= 0);
    crate::codec::lemma_zigzag_roundtrip(tp.x as int);
    crate::codec::lemma_zigzag_roundtrip(tp.y as int);
}

} // verus!
