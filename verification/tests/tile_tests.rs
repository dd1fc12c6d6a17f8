use earthwyrm::geom::EncodedGeom;
use earthwyrm::error::Error;
use earthwyrm::mvt::serialize_tile;
use earthwyrm::tile::{Attribute, GeomFeature, TagValue, TileBuilder};

fn point_feature(value: TagValue) -> GeomFeature {
    GeomFeature {
        geom: EncodedGeom { geom_type: 1, commands: vec![9, 0, 0] },
        attributes: vec![Attribute { key: b"kind".to_vec(), value }],
    }
}

/// Attribute deduplication: 1000 features sharing 3 distinct attribute
/// values produce a value table of size 3, not 1000.
#[test]
fn value_table_deduplicates() {
    let mut b = TileBuilder::new();
    let name = b"roads".to_vec();
    for i in 0..1000u64 {
        let v = match i % 3 {
            0 => TagValue::Str(b"motorway".to_vec()),
            1 => TagValue::Int(42),
            _ => TagValue::Bool(true),
        };
        b.add_feature(&name, 4096, &point_feature(v)).unwrap();
    }
    assert_eq!(b.layers.len(), 1);
    assert_eq!(b.layers[0].values.len(), 3);
    assert_eq!(b.layers[0].keys.len(), 1);
    assert_eq!(b.layers[0].features.len(), 1000);
}

#[test]
fn repeated_value_reuses_index() {
    let mut b = TileBuilder::new();
    let name = b"water".to_vec();
    b.add_feature(&name, 4096, &point_feature(TagValue::Int(7))).unwrap();
    b.add_feature(&name, 4096, &point_feature(TagValue::Int(7))).unwrap();
    b.add_feature(&name, 4096, &point_feature(TagValue::Int(9))).unwrap();
    let layer = &b.layers[0];
    assert_eq!(layer.features[0].tags, vec![0, 0]);
    assert_eq!(layer.features[1].tags, vec![0, 0]);
    assert_eq!(layer.features[2].tags, vec![0, 1]);
}

#[test]
fn features_without_geometry_are_dropped() {
    let mut b = TileBuilder::new();
    let name = b"roads".to_vec();
    let empty = GeomFeature {
        geom: EncodedGeom { geom_type: 2, commands: vec![] },
        attributes: vec![],
    };
    b.add_feature(&name, 4096, &empty).unwrap();
    assert_eq!(b.layers.len(), 0);
}

#[test]
fn finish_skips_empty_layers_and_flags_empty_tiles() {
    let b = TileBuilder::new();
    let t = b.finish(false).unwrap();
    assert_eq!(t.layers.len(), 0);

    let b = TileBuilder::new();
    assert!(matches!(b.finish(true), Err(Error::TileEmpty)));
}

#[test]
fn empty_tile_serializes_to_empty_payload() {
    let b = TileBuilder::new();
    let t = b.finish(false).unwrap();
    let bytes = serialize_tile(&t, 1 << 20).unwrap();
    assert_eq!(bytes.len(), 0);
}

#[test]
fn serialize_respects_size_cap() {
    let mut b = TileBuilder::new();
    let name = b"roads".to_vec();
    b.add_feature(&name, 4096, &point_feature(TagValue::Bool(false))).unwrap();
    let t = b.finish(false).unwrap();
    let r = serialize_tile(&t, 2);
    assert!(matches!(r, Err(Error::EncodingOverflow)));
}

/// Exact wire bytes of a minimal one-layer, one-feature tile.
#[test]
fn serialize_exact_bytes() {
    let mut b = TileBuilder::new();
    let name = b"a".to_vec();
    let f = GeomFeature {
        geom: EncodedGeom { geom_type: 1, commands: vec![9, 2, 4] },
        attributes: vec![],
    };
    b.add_feature(&name, 4096, &f).unwrap();
    let t = b.finish(false).unwrap();
    let bytes = serialize_tile(&t, 1 << 20).unwrap();
    let feature: Vec<u8> = vec![
        0x12, 0x00, // tags: empty packed field
        0x18, 0x01, // type: point
        0x22, 0x03, 9, 2, 4, // geometry: packed commands
    ];
    let mut layer: Vec<u8> = vec![0x0A, 0x01, b'a']; // name
    layer.extend_from_slice(&[0x12, feature.len() as u8]); // feature field
    layer.extend_from_slice(&feature);
    layer.extend_from_slice(&[0x28, 0x80, 0x20]); // extent 4096
    layer.extend_from_slice(&[0x78, 0x02]); // version 2
    let mut expected: Vec<u8> = vec![0x1A, layer.len() as u8];
    expected.extend_from_slice(&layer);
    assert_eq!(bytes, expected);
}

#[test]
fn layers_keep_first_use_order() {
    let mut b = TileBuilder::new();
    b.add_feature(&b"roads".to_vec(), 4096, &point_feature(TagValue::Int(1))).unwrap();
    b.add_feature(&b"water".to_vec(), 4096, &point_feature(TagValue::Int(2))).unwrap();
    b.add_feature(&b"roads".to_vec(), 4096, &point_feature(TagValue::Int(3))).unwrap();
    let t = b.finish(false).unwrap();
    assert_eq!(t.layers.len(), 2);
    assert_eq!(t.layers[0].name, b"roads".to_vec());
    assert_eq!(t.layers[1].name, b"water".to_vec());
    assert_eq!(t.layers[0].features.len(), 2);
}
