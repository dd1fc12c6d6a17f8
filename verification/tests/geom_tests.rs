use earthwyrm::codec::{make_command, varint_bytes, zigzag_decode, zigzag_encode};
use earthwyrm::error::Error;
use earthwyrm::geom::{RawGeometry, WorldPoint, decode_single_point, encode_geometry};
use earthwyrm::transform::{TileAddress, bounding_box, WORLD_SIZE};

#[test]
fn zigzag_known_values() {
    assert_eq!(zigzag_encode(0), 0);
    assert_eq!(zigzag_encode(-1), 1);
    assert_eq!(zigzag_encode(1), 2);
    assert_eq!(zigzag_encode(-2), 3);
    assert_eq!(zigzag_encode(2), 4);
}

#[test]
fn zigzag_round_trip() {
    for d in [-4096i64, -17, -1, 0, 1, 33, 8192] {
        assert_eq!(zigzag_decode(zigzag_encode(d)), d);
    }
}

#[test]
fn varint_known_values() {
    assert_eq!(varint_bytes(0), vec![0u8]);
    assert_eq!(varint_bytes(127), vec![127u8]);
    assert_eq!(varint_bytes(128), vec![0x80u8, 0x01]);
    assert_eq!(varint_bytes(300), vec![0xACu8, 0x02]);
    assert_eq!(varint_bytes(4096), vec![0x80u8, 0x20]);
}

#[test]
fn command_integers() {
    assert_eq!(make_command(1, 1), 9);
    assert_eq!(make_command(2, 3), 26);
    assert_eq!(make_command(7, 1), 15);
}

/// Round-trip: a single point at a known world coordinate decodes back
/// to the same tile-local coordinate.
#[test]
fn point_round_trip() {
    let a = TileAddress::new(0, 0, 0).unwrap();
    let b = bounding_box(&a);
    // Center of the world: tile-local (2048, 2048) at extent 4096.
    let g = RawGeometry::Point(WorldPoint { x: WORLD_SIZE / 2, y: WORLD_SIZE / 2 });
    let eg = encode_geometry(&g, &b, 4096).unwrap();
    assert_eq!(eg.geom_type, 1);
    let p = decode_single_point(&eg.commands).unwrap();
    assert_eq!(p, (2048, 2048));
}

#[test]
fn point_command_stream_exact() {
    let a = TileAddress::new(0, 0, 0).unwrap();
    let b = bounding_box(&a);
    let g = RawGeometry::Point(WorldPoint { x: 0, y: WORLD_SIZE });
    let eg = encode_geometry(&g, &b, 4096).unwrap();
    // MoveTo(1) then zig-zag deltas from the origin: (0, 0).
    assert_eq!(eg.commands, vec![9u32, 0, 0]);
}

#[test]
fn unsupported_geometry_is_an_error() {
    let a = TileAddress::new(0, 0, 0).unwrap();
    let b = bounding_box(&a);
    let g = RawGeometry::Unsupported(7);
    let r = encode_geometry(&g, &b, 4096);
    assert!(matches!(r, Err(Error::UnsupportedGeometryType(7))));
}

#[test]
fn degenerate_line_is_dropped() {
    let a = TileAddress::new(0, 0, 0).unwrap();
    let b = bounding_box(&a);
    // Both vertices collapse to the same grid cell after rounding.
    let g = RawGeometry::Linestring(vec![
        WorldPoint { x: 0, y: WORLD_SIZE },
        WorldPoint { x: 1, y: WORLD_SIZE },
    ]);
    let eg = encode_geometry(&g, &b, 4096).unwrap();
    assert_eq!(eg.commands.len(), 0);
}

#[test]
fn linestring_commands() {
    let a = TileAddress::new(0, 0, 0).unwrap();
    let b = bounding_box(&a);
    let q = WORLD_SIZE / 4096;
    // From (0,0) to (10, 0) in tile units, along the top edge.
    let g = RawGeometry::Linestring(vec![
        WorldPoint { x: 0, y: WORLD_SIZE },
        WorldPoint { x: 10 * q, y: WORLD_SIZE },
    ]);
    let eg = encode_geometry(&g, &b, 4096).unwrap();
    assert_eq!(eg.geom_type, 2);
    // MoveTo(1) (0,0); LineTo(1) (+10, 0).
    assert_eq!(eg.commands, vec![9u32, 0, 0, 10, 20, 0]);
}

/// Decodes a single-ring polygon command stream into absolute points.
fn decode_ring(cmds: &[u32]) -> Vec<(i64, i64)> {
    assert_eq!(cmds[0], 9); // MoveTo(1)
    let mut pts = vec![(zigzag_decode(cmds[1]), zigzag_decode(cmds[2]))];
    let lineto = cmds[3];
    assert_eq!(lineto & 7, 2);
    let count = (lineto >> 3) as usize;
    let mut at = 4;
    for _ in 0..count {
        let prev = *pts.last().unwrap();
        pts.push((prev.0 + zigzag_decode(cmds[at]), prev.1 + zigzag_decode(cmds[at + 1])));
        at += 2;
    }
    assert_eq!(cmds[at], 15); // ClosePath(1)
    pts
}

/// Twice the signed area of a decoded ring (closing edge included).
fn ring_area2(pts: &[(i64, i64)]) -> i64 {
    let n = pts.len();
    let mut a = 0i64;
    for i in 0..n {
        let p = pts[i];
        let q = pts[(i + 1) % n];
        a += p.0 * q.1 - q.0 * p.1;
    }
    a
}

/// Polygon winding: an exterior ring supplied counter-clockwise in
/// geographic space comes out clockwise in tile space (positive signed
/// area with the flipped axis); a hole winds the opposite way.
#[test]
fn polygon_winding_normalized() {
    let a = TileAddress::new(0, 0, 0).unwrap();
    let b = bounding_box(&a);
    let q = WORLD_SIZE / 4096;
    // Counter-clockwise in geographic space (y up).
    let exterior = vec![
        WorldPoint { x: 0, y: WORLD_SIZE - 100 * q },
        WorldPoint { x: 100 * q, y: WORLD_SIZE - 100 * q },
        WorldPoint { x: 100 * q, y: WORLD_SIZE },
        WorldPoint { x: 0, y: WORLD_SIZE },
    ];
    // Also counter-clockwise in geographic space: must be reversed.
    let hole = vec![
        WorldPoint { x: 20 * q, y: WORLD_SIZE - 80 * q },
        WorldPoint { x: 80 * q, y: WORLD_SIZE - 80 * q },
        WorldPoint { x: 80 * q, y: WORLD_SIZE - 20 * q },
        WorldPoint { x: 20 * q, y: WORLD_SIZE - 20 * q },
    ];
    let g = RawGeometry::Polygon(vec![exterior, hole]);
    let eg = encode_geometry(&g, &b, 4096).unwrap();
    assert_eq!(eg.geom_type, 3);
    // Split the stream at the first ClosePath.
    let close_at = eg.commands.iter().position(|c| *c == 15).unwrap();
    let ring1 = decode_ring(&eg.commands[..close_at + 1]);
    let ring2 = decode_ring(&eg.commands[close_at + 1..]);
    assert!(ring_area2(&ring1) > 0, "exterior must wind clockwise on screen");
    assert!(ring_area2(&ring2) < 0, "hole must wind opposite to the exterior");
}

#[test]
fn zero_area_ring_is_dropped() {
    let a = TileAddress::new(0, 0, 0).unwrap();
    let b = bounding_box(&a);
    let q = WORLD_SIZE / 4096;
    let flat = vec![
        WorldPoint { x: 0, y: WORLD_SIZE },
        WorldPoint { x: 10 * q, y: WORLD_SIZE },
        WorldPoint { x: 20 * q, y: WORLD_SIZE },
    ];
    let g = RawGeometry::Polygon(vec![flat]);
    let eg = encode_geometry(&g, &b, 4096).unwrap();
    assert_eq!(eg.commands.len(), 0);
}

#[test]
fn multipoint_shares_one_moveto() {
    let a = TileAddress::new(0, 0, 0).unwrap();
    let b = bounding_box(&a);
    let q = WORLD_SIZE / 4096;
    let g = RawGeometry::MultiPoint(vec![
        WorldPoint { x: 5 * q, y: WORLD_SIZE - 7 * q },
        WorldPoint { x: 3 * q, y: WORLD_SIZE - 2 * q },
    ]);
    let eg = encode_geometry(&g, &b, 4096).unwrap();
    // MoveTo(2): (5,7) then delta (-2,-5).
    assert_eq!(eg.commands, vec![17u32, 10, 14, 3, 9]);
}
