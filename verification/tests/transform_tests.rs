use earthwyrm::error::Error;
use earthwyrm::transform::{TileAddress, bounding_box, to_tile_local, WORLD_SIZE};

#[test]
fn address_accepts_valid() {
    let a = TileAddress::new(0, 0, 0).unwrap();
    assert_eq!(a.zoom, 0);
    let a = TileAddress::new(10, 1023, 1023).unwrap();
    assert_eq!(a.column, 1023);
}

#[test]
fn address_rejects_out_of_range() {
    assert!(matches!(TileAddress::new(10, 1024, 0), Err(Error::InvalidAddress)));
    assert!(matches!(TileAddress::new(10, 0, 1024), Err(Error::InvalidAddress)));
    assert!(matches!(TileAddress::new(31, 0, 0), Err(Error::InvalidAddress)));
}

#[test]
fn bounding_box_zoom_zero_is_world() {
    let a = TileAddress::new(0, 0, 0).unwrap();
    let b = bounding_box(&a);
    assert_eq!(b.min_x, 0);
    assert_eq!(b.min_y, 0);
    assert_eq!(b.max_x, WORLD_SIZE);
    assert_eq!(b.max_y, WORLD_SIZE);
}

#[test]
fn bounding_box_row_origin_is_top_left() {
    // row 0 at zoom 1 must touch the top of the world (largest y).
    let a = TileAddress::new(1, 0, 0).unwrap();
    let b = bounding_box(&a);
    assert_eq!(b.max_y, WORLD_SIZE);
    assert_eq!(b.min_y, WORLD_SIZE / 2);
    assert_eq!(b.min_x, 0);
    assert_eq!(b.max_x, WORLD_SIZE / 2);
}

#[test]
fn bounding_box_children_nested_in_parent() {
    let parent = TileAddress::new(4, 5, 9).unwrap();
    let pb = bounding_box(&parent);
    for (dc, dr) in [(0u32, 0u32), (0, 1), (1, 0), (1, 1)] {
        let child = TileAddress::new(5, 2 * 5 + dc, 2 * 9 + dr).unwrap();
        let cb = bounding_box(&child);
        assert!(pb.min_x <= cb.min_x && cb.max_x <= pb.max_x);
        assert!(pb.min_y <= cb.min_y && cb.max_y <= pb.max_y);
        assert_eq!(cb.max_x - cb.min_x, (pb.max_x - pb.min_x) / 2);
    }
}

#[test]
fn tile_local_corners() {
    let a = TileAddress::new(0, 0, 0).unwrap();
    let b = bounding_box(&a);
    // Top-left world corner maps to (0, 0); bottom-right to (extent, extent).
    let (x, y) = to_tile_local(0, WORLD_SIZE, &b, 4096);
    assert_eq!((x, y), (0, 0));
    let (x, y) = to_tile_local(WORLD_SIZE, 0, &b, 4096);
    assert_eq!((x, y), (4096, 4096));
    // Center of the box maps to the center of the grid.
    let (x, y) = to_tile_local(WORLD_SIZE / 2, WORLD_SIZE / 2, &b, 4096);
    assert_eq!((x, y), (2048, 2048));
}

#[test]
fn tile_local_rounds_to_nearest() {
    let a = TileAddress::new(0, 0, 0).unwrap();
    let b = bounding_box(&a);
    // One world unit inside an edge of over a million units per grid cell
    // still rounds to the boundary.
    let (x, _) = to_tile_local(1, WORLD_SIZE, &b, 4096);
    assert_eq!(x, 0);
}

#[test]
fn tile_local_outside_box_goes_out_of_range() {
    // A point in the right half of the world, seen from the top-left
    // quadrant tile, lands beyond the extent.
    let a = TileAddress::new(1, 0, 0).unwrap();
    let b = bounding_box(&a);
    let (x, y) = to_tile_local(WORLD_SIZE, WORLD_SIZE, &b, 4096);
    assert_eq!(x, 8192);
    assert_eq!(y, 0);
}
