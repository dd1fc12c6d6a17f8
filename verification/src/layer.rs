//! Layer query planning: decides which layers are queried for a tile
//! address and with which bounding-box parameters, and converts fetched
//! rows into features.  The application executes the planned query
//! through its database driver, with the box passed as bound parameters,
//! never by string concatenation.

use vstd::prelude::*;

use crate::error::Error;
use crate::geom::{EncodedGeom, RawGeometry, encode_geometry};
use crate::tile::{Attribute, GeomFeature, TagValue, attrs_view, copy_bytes};
use crate::transform::{BoundingBox, MAX_EXTENT, TileAddress, bounding_box, bbox_min_x, bbox_max_y, edge_len};

verus! {

/// Configuration of one layer: name, query template with bounding-box
/// placeholders, the zoom band it serves, and its grid resolution.
/// Read-only for the duration of a request.
#[derive(Debug, Clone)]
pub struct LayerSpec {
    pub name: Vec<u8>,
    pub query_template: Vec<u8>,
    pub min_zoom: u8,
    pub max_zoom: u8,
    pub extent: u32,
}

impl LayerSpec {
    pub open spec fn wf(self) -> bool {
        1 <= self.extent <= MAX_EXTENT
    }

    /// The layer serves this zoom level.
    pub open spec fn in_zoom(self, zoom: u8) -> bool {
        self.min_zoom <= zoom <= self.max_zoom
    }
}

/// One row fetched for a layer: a geometry and its attribute columns.
#[derive(Debug, Clone)]
pub struct RawRow {
    pub geom: RawGeometry,
    pub attributes: Vec<Attribute>,
}

/// Whether the layer is queried at all for this address, and with which
/// box.  Out-of-zoom layers are skipped entirely -- a normal short
/// circuit, not an error -- so no database query is ever issued for
/// them.
pub fn plan_fetch(l: &LayerSpec, addr: &TileAddress) -> (r: Option<BoundingBox>)
    requires
        addr.wf(),
    ensures
        r is Some <==> l.in_zoom(addr.zoom),
        r matches Some(b) ==> b.wf()
            && b.min_x == bbox_min_x(*addr)
            && b.max_x == bbox_min_x(*addr) + edge_len(addr.zoom as nat)
            && b.max_y == bbox_max_y(*addr)
            && b.min_y == bbox_max_y(*addr) - edge_len(addr.zoom as nat),
{
    if l.min_zoom <= addr.zoom && addr.zoom <= l.max_zoom {
        Some(bounding_box(addr))
    } else {
        None
    }
}

/// Copies one attribute.
fn copy_attribute(a: &Attribute) -> (r: Attribute)
    ensures
        r@ == a@,
{
    let value = match &a.value {
        TagValue::Str(b) => TagValue::Str(copy_bytes(b)),
        TagValue::Int(i) => TagValue::Int(*i),
        TagValue::Bool(t) => TagValue::Bool(*t),
    };
    Attribute { key: copy_bytes(&a.key), value }
}

/// Converts one fetched row into a feature for the builder: the geometry
/// becomes its command stream, the attributes ride along unchanged.
/// Fails exactly on unsupported geometry types.
pub fn encode_row(row: &RawRow, b: &BoundingBox, extent: u32) -> (r: Result<GeomFeature, Error>)
    requires
        b.wf(),
        row.geom.wf(),
        1 <= extent <= MAX_EXTENT,
    ensures
        r is Err <==> row.geom is Unsupported,
        row.geom matches RawGeometry::Unsupported(c)
            ==> r matches Err(e) && e == Error::UnsupportedGeometryType(c),
        r matches Ok(f) ==> f.geom.geom_type == row.geom.type_tag()
            && f.geom.commands@ == crate::geom::geom_stream(row.geom, *b, extent as int)
            && attrs_view(f.attributes@) == attrs_view(row.attributes@),
{
    let geom = match encode_geometry(&row.geom, b, extent) {
        Ok(g) => g,
        Err(e) => {
            return Err(e);
        }
    };
    let mut attributes: Vec<Attribute> = Vec::new();
    let mut i: usize = 0;
    while i < row.attributes.len()
        invariant
            0 <= i <= row.attributes@.len(),
            attrs_view(attributes@) == attrs_view(row.attributes@.take(i as int)),
        decreases row.attributes@.len() - i,
    {
        let ghost prev = attributes@;
        let c = copy_attribute(&row.attributes[i]);
        attributes.push(c);
        proof {
            assert(attrs_view(prev).len() == prev.len());
            assert(prev.len() == i as int);
            assert(attributes@ == prev.push(c));
            assert forall|j: int| 0 <= j < attributes@.len() implies
                (#[trigger] attributes@[j])@ == row.attributes@.take(i as int + 1)[j]@ by {
                if j < i as int {
                    assert(attributes@[j] == prev[j]);
                    assert(attrs_view(prev)[j] == attrs_view(row.attributes@.take(i as int))[j]);
                    assert(row.attributes@.take(i as int)[j]
                        == row.attributes@.take(i as int + 1)[j]);
                } else {
                    assert(attributes@[j] == c);
                    assert(row.attributes@.take(i as int + 1)[j] == row.attributes@[i as int]);
                }
            }
            assert(attrs_view(attributes@)
                =~= attrs_view(row.attributes@.take(i as int + 1)));
        }
        i = i + 1;
    }
    proof {
        assert(row.attributes@.take(row.attributes@.len() as int) =~= row.attributes@);
    }
    Ok(GeomFeature { geom, attributes })
}

} // verus!
