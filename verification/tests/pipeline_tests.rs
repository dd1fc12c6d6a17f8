use earthwyrm::error::Error;
use earthwyrm::geom::{RawGeometry, WorldPoint};
use earthwyrm::layer::{LayerSpec, RawRow, plan_fetch};
use earthwyrm::pipeline::{FetchOutcome, TileConfig, run_pipeline};
use earthwyrm::tile::{Attribute, TagValue};
use earthwyrm::transform::{TileAddress, WORLD_SIZE};

fn layer(name: &[u8], min_zoom: u8, max_zoom: u8) -> LayerSpec {
    LayerSpec {
        name: name.to_vec(),
        query_template: b"SELECT geom, kind FROM t WHERE geom && $BBOX".to_vec(),
        min_zoom,
        max_zoom,
        extent: 4096,
    }
}

fn cfg() -> TileConfig {
    TileConfig { max_bytes: 1 << 20, error_on_empty: false }
}

fn point_row() -> RawRow {
    RawRow {
        geom: RawGeometry::Point(WorldPoint { x: WORLD_SIZE / 2, y: WORLD_SIZE / 2 }),
        attributes: vec![Attribute { key: b"kind".to_vec(), value: TagValue::Int(1) }],
    }
}

/// Empty-tile scenario: a layer whose query returns zero rows yields a
/// tile with zero layers (an empty payload), not an error, under the
/// default policy.
#[test]
fn empty_tile_is_not_an_error() {
    let addr = TileAddress::new(10, 0, 0).unwrap();
    let layers = vec![layer(b"roads", 0, 20)];
    let outcomes = vec![FetchOutcome::Rows(vec![])];
    let bytes = run_pipeline(&addr, &layers, outcomes, &cfg()).unwrap();
    assert_eq!(bytes.len(), 0);
}

#[test]
fn empty_tile_errors_under_strict_policy() {
    let addr = TileAddress::new(10, 0, 0).unwrap();
    let layers = vec![layer(b"roads", 0, 20)];
    let outcomes = vec![FetchOutcome::Rows(vec![])];
    let strict = TileConfig { max_bytes: 1 << 20, error_on_empty: true };
    let r = run_pipeline(&addr, &layers, outcomes, &strict);
    assert!(matches!(r, Err(Error::TileEmpty)));
}

/// Out-of-zoom-range scenario: a layer configured for zoom 5..=10
/// queried at zoom 12 contributes zero rows and no query is planned.
#[test]
fn out_of_zoom_layer_is_skipped() {
    let addr = TileAddress::new(12, 100, 100).unwrap();
    let spec = layer(b"roads", 5, 10);
    assert!(plan_fetch(&spec, &addr).is_none());
    // Even a fetch outcome with rows contributes nothing out of range.
    let outcomes = vec![FetchOutcome::Rows(vec![point_row()])];
    let bytes = run_pipeline(&addr, &vec![spec], outcomes, &cfg()).unwrap();
    assert_eq!(bytes.len(), 0);
}

#[test]
fn in_zoom_layer_is_planned() {
    let addr = TileAddress::new(7, 3, 5).unwrap();
    let spec = layer(b"roads", 5, 10);
    let b = plan_fetch(&spec, &addr).unwrap();
    assert!(b.min_x < b.max_x && b.min_y < b.max_y);
}

#[test]
fn pool_failure_aborts_request() {
    let addr = TileAddress::new(10, 0, 0).unwrap();
    let layers = vec![layer(b"roads", 0, 20), layer(b"water", 0, 20)];
    let outcomes = vec![
        FetchOutcome::Failed(Error::PoolTimeout),
        FetchOutcome::Rows(vec![point_row()]),
    ];
    let r = run_pipeline(&addr, &layers, outcomes, &cfg());
    assert!(matches!(r, Err(Error::PoolTimeout)));
}

#[test]
fn pool_exhaustion_aborts_request() {
    let addr = TileAddress::new(10, 0, 0).unwrap();
    let layers = vec![layer(b"roads", 0, 20)];
    let outcomes = vec![FetchOutcome::Failed(Error::PoolExhausted)];
    let r = run_pipeline(&addr, &layers, outcomes, &cfg());
    assert!(matches!(r, Err(Error::PoolExhausted)));
}

#[test]
fn query_failure_omits_only_that_layer() {
    let addr = TileAddress::new(10, 0, 0).unwrap();
    let layers = vec![layer(b"roads", 0, 20), layer(b"water", 0, 20)];
    let outcomes = vec![
        FetchOutcome::Failed(Error::QueryFailed(b"relation missing".to_vec())),
        FetchOutcome::Rows(vec![point_row()]),
    ];
    let bytes = run_pipeline(&addr, &layers, outcomes, &cfg()).unwrap();
    // Only the water layer made it into the tile.
    assert!(bytes.len() > 0);
    let with_both = run_pipeline(
        &TileAddress::new(10, 0, 0).unwrap(),
        &layers,
        vec![
            FetchOutcome::Rows(vec![point_row()]),
            FetchOutcome::Rows(vec![point_row()]),
        ],
        &cfg(),
    )
    .unwrap();
    assert!(with_both.len() > bytes.len());
}

#[test]
fn unsupported_geometry_omits_layer() {
    let addr = TileAddress::new(10, 0, 0).unwrap();
    let layers = vec![layer(b"roads", 0, 20)];
    let bad = RawRow { geom: RawGeometry::Unsupported(99), attributes: vec![] };
    let outcomes = vec![FetchOutcome::Rows(vec![point_row(), bad])];
    let bytes = run_pipeline(&addr, &layers, outcomes, &cfg()).unwrap();
    assert_eq!(bytes.len(), 0);
}

/// Idempotence: two runs over identical inputs yield byte-identical
/// output.
#[test]
fn identical_inputs_identical_bytes() {
    let addr = TileAddress::new(10, 17, 23).unwrap();
    let layers = vec![layer(b"roads", 0, 20)];
    let mk = || {
        vec![FetchOutcome::Rows(vec![RawRow {
            geom: RawGeometry::Linestring(vec![
                WorldPoint { x: WORLD_SIZE / 3, y: WORLD_SIZE / 5 },
                WorldPoint { x: WORLD_SIZE / 2, y: WORLD_SIZE / 4 },
            ]),
            attributes: vec![Attribute { key: b"kind".to_vec(), value: TagValue::Str(b"path".to_vec()) }],
        }])]
    };
    let b1 = run_pipeline(&addr, &layers, mk(), &cfg()).unwrap();
    let b2 = run_pipeline(&addr, &layers, mk(), &cfg()).unwrap();
    assert_eq!(b1, b2);
}

#[test]
fn size_cap_fails_with_overflow() {
    let addr = TileAddress::new(10, 0, 0).unwrap();
    let layers = vec![layer(b"roads", 0, 20)];
    let outcomes = vec![FetchOutcome::Rows(vec![point_row()])];
    let tiny = TileConfig { max_bytes: 4, error_on_empty: false };
    let r = run_pipeline(&addr, &layers, outcomes, &tiny);
    assert!(matches!(r, Err(Error::EncodingOverflow)));
}
