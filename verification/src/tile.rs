//! Tile builder: accumulates encoded features into named layers,
//! interning attribute keys and values into per-layer shared tables so a
//! value occurring in many features is stored once and referenced by
//! index.

use vstd::prelude::*;

use crate::error::Error;
use crate::geom::EncodedGeom;
use crate::transform::MAX_EXTENT;

verus! {

/// Cap on one layer's key or value table, so indices fit the wire's
/// 32-bit tag references with room to spare.
pub const MAX_TABLE: usize = 0x0010_0000;

/// Cap on the attribute count of a single feature.
pub const MAX_FEATURE_ATTRS: usize = 0x1_0000;

/// A typed attribute value: string (as UTF-8 bytes), integer, or boolean.
#[derive(Debug, Clone)]
pub enum TagValue {
    Str(Vec<u8>),
    Int(i64),
    Bool(bool),
}

/// Mathematical value of a `TagValue`.
#[verifier::ext_equal]
pub enum TagV {
    Str(Seq<u8>),
    Int(int),
    Bool(bool),
}

impl View for TagValue {
    type V = TagV;

    open spec fn view(&self) -> TagV {
        match *self {
            TagValue::Str(b) => TagV::Str(b@),
            TagValue::Int(i) => TagV::Int(i as int),
            TagValue::Bool(t) => TagV::Bool(t),
        }
    }
}

/// One attribute of a feature, before interning.
#[derive(Debug, Clone)]
pub struct Attribute {
    pub key: Vec<u8>,
    pub value: TagValue,
}

impl View for Attribute {
    type V = (Seq<u8>, TagV);

    open spec fn view(&self) -> (Seq<u8>, TagV) {
        (self.key@, self.value@)
    }
}

/// An encoded geometry together with its attributes, as handed to the
/// builder.
#[derive(Debug, Clone)]
pub struct GeomFeature {
    pub geom: EncodedGeom,
    pub attributes: Vec<Attribute>,
}

/// A feature inside a layer: geometry plus interleaved key/value table
/// indices.
#[derive(Debug, Clone)]
pub struct EncodedFeature {
    pub geom_type: u32,
    pub commands: Vec<u32>,
    pub tags: Vec<u32>,
}

/// Mathematical value of an `EncodedFeature`.
#[verifier::ext_equal]
pub struct FeatureV {
    pub geom_type: u32,
    pub commands: Seq<u32>,
    pub tags: Seq<u32>,
}

impl View for EncodedFeature {
    type V = FeatureV;

    open spec fn view(&self) -> FeatureV {
        FeatureV { geom_type: self.geom_type, commands: self.commands@, tags: self.tags@ }
    }
}

/// One finished (or in-progress) layer: name, extent, deduplicated key
/// and value tables, and the features referencing them by index.
#[derive(Debug, Clone)]
pub struct EncodedLayer {
    pub name: Vec<u8>,
    pub extent: u32,
    pub keys: Vec<Vec<u8>>,
    pub values: Vec<TagValue>,
    pub features: Vec<EncodedFeature>,
}

/// Mathematical value of an `EncodedLayer`.
#[verifier::ext_equal]
pub struct LayerV {
    pub name: Seq<u8>,
    pub extent: u32,
    pub keys: Seq<Seq<u8>>,
    pub values: Seq<TagV>,
    pub features: Seq<FeatureV>,
}

/// View of a key table.
pub open spec fn keys_view(s: Seq<Vec<u8>>) -> Seq<Seq<u8>> {
    s.map_values(|k: Vec<u8>| k@)
}

/// View of a value table.
pub open spec fn values_view(s: Seq<TagValue>) -> Seq<TagV> {
    s.map_values(|v: TagValue| v@)
}

/// View of an attribute list.
pub open spec fn attrs_view(s: Seq<Attribute>) -> Seq<(Seq<u8>, TagV)> {
    s.map_values(|a: Attribute| a@)
}

impl View for EncodedLayer {
    type V = LayerV;

    open spec fn view(&self) -> LayerV {
        LayerV {
            name: self.name@,
            extent: self.extent,
            keys: keys_view(self.keys@),
            values: values_view(self.values@),
            features: self.features@.map_values(|f: EncodedFeature| f@),
        }
    }
}

/// Index of the first occurrence of `k`, or the length if absent.
pub open spec fn key_index(keys: Seq<Seq<u8>>, k: Seq<u8>) -> int
    decreases keys.len(),
{
    if keys.len() == 0 {
        0
    } else if keys[0] == k {
        0
    } else {
        1 + key_index(keys.drop_first(), k)
    }
}

/// Index of the first occurrence of `v`, or the length if absent.
pub open spec fn value_index(values: Seq<TagV>, v: TagV) -> int
    decreases values.len(),
{
    if values.len() == 0 {
        0
    } else if values[0] == v {
        0
    } else {
        1 + value_index(values.drop_first(), v)
    }
}

pub proof fn lemma_key_index(keys: Seq<Seq<u8>>, k: Seq<u8>)
    ensures
        0 <= key_index(keys, k) <= keys.len(),
        key_index(keys, k) < keys.len() ==> keys[key_index(keys, k)] == k,
        forall|j: int| 0 <= j < key_index(keys, k) ==> keys[j] != k,
    decreases keys.len(),
{
    if keys.len() == 0 || keys[0] == k {
    } else {
        lemma_key_index(keys.drop_first(), k);
        assert forall|j: int| 0 <= j < key_index(keys, k) implies keys[j] != k by {
            if j > 0 {
                assert(keys.drop_first()[j - 1] == keys[j]);
            }
        }
        if key_index(keys, k) < keys.len() {
            assert(keys.drop_first()[key_index(keys, k) - 1] == keys[key_index(keys, k)]);
        }
    }
}

pub proof fn lemma_value_index(values: Seq<TagV>, v: TagV)
    ensures
        0 <= value_index(values, v) <= values.len(),
        value_index(values, v) < values.len() ==> values[value_index(values, v)] == v,
        forall|j: int| 0 <= j < value_index(values, v) ==> values[j] != v,
    decreases values.len(),
{
    if values.len() == 0 || values[0] == v {
    } else {
        lemma_value_index(values.drop_first(), v);
        assert forall|j: int| 0 <= j < value_index(values, v) implies values[j] != v by {
            if j > 0 {
                assert(values.drop_first()[j - 1] == values[j]);
            }
        }
        if value_index(values, v) < values.len() {
            assert(values.drop_first()[value_index(values, v) - 1]
                == values[value_index(values, v)]);
        }
    }
}

/// No two entries of the key table are equal.
pub open spec fn keys_distinct(keys: Seq<Seq<u8>>) -> bool {
    forall|i: int, j: int| #![trigger keys[i], keys[j]]
        0 <= i < j < keys.len() ==> keys[i] != keys[j]
}

/// No two entries of the value table are equal: structural sharing, not
/// duplication.
pub open spec fn values_distinct(values: Seq<TagV>) -> bool {
    forall|i: int, j: int| #![trigger values[i], values[j]]
        0 <= i < j < values.len() ==> values[i] != values[j]
}

/// Result of interning the first `n` attributes into the tables: the
/// grown key table, the grown value table, and the tag index pairs.
pub open spec fn intern_attrs(
    keys: Seq<Seq<u8>>,
    values: Seq<TagV>,
    attrs: Seq<(Seq<u8>, TagV)>,
    n: int,
) -> (Seq<Seq<u8>>, Seq<TagV>, Seq<u32>)
    decreases n,
{
    if n <= 0 {
        (keys, values, Seq::empty())
    } else {
        let (k1, v1, t1) = intern_attrs(keys, values, attrs, n - 1);
        let a = attrs[n - 1];
        let ki = key_index(k1, a.0);
        let k2 = if ki < k1.len() {
            k1
        } else {
            k1.push(a.0)
        };
        let vi = value_index(v1, a.1);
        let v2 = if vi < v1.len() {
            v1
        } else {
            v1.push(a.1)
        };
        (k2, v2, t1 + seq![ki as u32, vi as u32])
    }
}

/// Deduplication law: interning keeps both tables free of duplicates,
/// only appends to them, emits one index pair per attribute, every index
/// in range, and every interned value present in the final table --
/// exactly once, by distinctness.
pub proof fn lemma_intern_dedup(
    keys: Seq<Seq<u8>>,
    values: Seq<TagV>,
    attrs: Seq<(Seq<u8>, TagV)>,
    n: int,
)
    requires
        0 <= n <= attrs.len(),
        keys_distinct(keys),
        values_distinct(values),
    ensures
        ({
            let (k2, v2, t) = intern_attrs(keys, values, attrs, n);
            &&& keys_distinct(k2)
            &&& values_distinct(v2)
            &&& keys.len() <= k2.len() <= keys.len() + n
            &&& values.len() <= v2.len() <= values.len() + n
            &&& (forall|i: int| 0 <= i < keys.len() ==> #[trigger] k2[i] == keys[i])
            &&& (forall|i: int| 0 <= i < values.len() ==> #[trigger] v2[i] == values[i])
            &&& t.len() == 2 * n
            &&& (forall|ti: int| 0 <= ti < t.len() && ti % 2 == 0
                ==> (#[trigger] t[ti]) < k2.len())
            &&& (forall|ti: int| 0 <= ti < t.len() && ti % 2 == 1
                ==> (#[trigger] t[ti]) < v2.len())
            &&& (forall|j: int| 0 <= j < n
                ==> v2[value_index(v2, (#[trigger] attrs[j]).1)] == attrs[j].1
                    && value_index(v2, attrs[j].1) < v2.len())
        }),
    decreases n,
{
    if n <= 0 {
    } else {
        lemma_intern_dedup(keys, values, attrs, n - 1);
        let prev = intern_attrs(keys, values, attrs, n - 1);
        let k1 = prev.0;
        let v1 = prev.1;
        let t1 = prev.2;
        let a = attrs[n - 1];
        let ki = key_index(k1, a.0);
        let vi = value_index(v1, a.1);
        let k2 = if ki < k1.len() { k1 } else { k1.push(a.0) };
        let v2 = if vi < v1.len() { v1 } else { v1.push(a.1) };
        let t = t1 + seq![ki as u32, vi as u32];
        assert(intern_attrs(keys, values, attrs, n) == (k2, v2, t));
        lemma_key_index(k1, a.0);
        lemma_value_index(v1, a.1);
        assert(keys_distinct(k2));
        assert(values_distinct(v2));
        assert forall|ti: int| 0 <= ti < t.len() && ti % 2 == 0 implies
            (#[trigger] t[ti]) < k2.len() by {
            if ti < t1.len() {
                assert(t[ti] == t1[ti]);
            } else {
                assert(ti == t1.len());
                assert(t[ti] == ki as u32);
            }
        }
        assert forall|ti: int| 0 <= ti < t.len() && ti % 2 == 1 implies
            (#[trigger] t[ti]) < v2.len() by {
            if ti < t1.len() {
                assert(t[ti] == t1[ti]);
            } else {
                assert(ti == t1.len() + 1);
                assert(t[ti] == vi as u32);
            }
        }
        assert forall|j: int| 0 <= j < n implies
            v2[value_index(v2, (#[trigger] attrs[j]).1)] == attrs[j].1
                && value_index(v2, attrs[j].1) < v2.len() by {
            if j < n - 1 {
                let w = value_index(v1, attrs[j].1);
                lemma_value_index(v1, attrs[j].1);
                assert(v1[value_index(v1, attrs[j].1)] == attrs[j].1
                    && value_index(v1, attrs[j].1) < v1.len());
                assert(0 <= w < v1.len());
                if vi < v1.len() {
                    assert(v2 == v1);
                } else {
                    assert(v2 == v1.push(a.1));
                    assert(v2[w] == v1[w]);
                }
                lemma_index_present(v2, attrs[j].1, w);
            } else {
                if vi < v1.len() {
                    lemma_index_present(v2, a.1, vi);
                } else {
                    assert(v2[v1.len() as int] == a.1);
                    lemma_index_present(v2, a.1, v1.len() as int);
                }
            }
        }
    }
}

/// A value known to sit in the table is found by `value_index`.
proof fn lemma_index_present(values: Seq<TagV>, v: TagV, i: int)
    requires
        0 <= i < values.len(),
        values[i] == v,
    ensures
        value_index(values, v) < values.len(),
        values[value_index(values, v)] == v,
{
    lemma_value_index(values, v);
    if value_index(values, v) == values.len() {
        assert(values[i] != v);
    }
}

/// Well-formedness of one layer: tables deduplicated and capped, and
/// every feature's tag indices inside the tables.
pub open spec fn layer_wf(l: LayerV) -> bool {
    &&& keys_distinct(l.keys)
    &&& values_distinct(l.values)
    &&& l.keys.len() <= MAX_TABLE
    &&& l.values.len() <= MAX_TABLE
    &&& 1 <= l.extent <= MAX_EXTENT
    &&& forall|fi: int| 0 <= fi < l.features.len() ==> feature_wf(#[trigger] l.features[fi], l)
}

/// Tag indices of one feature reference existing table entries.
pub open spec fn feature_wf(f: FeatureV, l: LayerV) -> bool {
    &&& f.tags.len() % 2 == 0
    &&& (forall|ti: int| 0 <= ti < f.tags.len() && ti % 2 == 0
        ==> (#[trigger] f.tags[ti]) < l.keys.len())
    &&& (forall|ti: int| 0 <= ti < f.tags.len() && ti % 2 == 1
        ==> (#[trigger] f.tags[ti]) < l.values.len())
}

/// First layer with this name, or the length if absent.
pub open spec fn layer_index(layers: Seq<LayerV>, name: Seq<u8>) -> int
    decreases layers.len(),
{
    if layers.len() == 0 {
        0
    } else if layers[0].name == name {
        0
    } else {
        1 + layer_index(layers.drop_first(), name)
    }
}

pub proof fn lemma_layer_index(layers: Seq<LayerV>, name: Seq<u8>)
    ensures
        0 <= layer_index(layers, name) <= layers.len(),
        layer_index(layers, name) < layers.len()
            ==> layers[layer_index(layers, name)].name == name,
        forall|j: int| 0 <= j < layer_index(layers, name)
            ==> (#[trigger] layers[j]).name != name,
    decreases layers.len(),
{
    if layers.len() == 0 || layers[0].name == name {
    } else {
        lemma_layer_index(layers.drop_first(), name);
        assert forall|j: int| 0 <= j < layer_index(layers, name) implies
            (#[trigger] layers[j]).name != name by {
            if j > 0 {
                assert(layers.drop_first()[j - 1] == layers[j]);
            }
        }
        if layer_index(layers, name) < layers.len() {
            assert(layers.drop_first()[layer_index(layers, name) - 1]
                == layers[layer_index(layers, name)]);
        }
    }
}

/// An empty layer about to receive its first feature.
pub open spec fn fresh_layer(name: Seq<u8>, extent: u32) -> LayerV {
    LayerV {
        name,
        extent,
        keys: Seq::empty(),
        values: Seq::empty(),
        features: Seq::empty(),
    }
}

/// Whether `add_feature` succeeds: features without geometry are dropped
/// without touching any table; otherwise the attribute count and the
/// target layer's tables must stay under their caps.
pub open spec fn add_ok(layers: Seq<LayerV>, name: Seq<u8>, n_attrs: int, has_geom: bool) -> bool {
    if !has_geom {
        true
    } else {
        let li = layer_index(layers, name);
        let l = if li < layers.len() {
            layers[li]
        } else {
            fresh_layer(name, 0)
        };
        &&& n_attrs <= MAX_FEATURE_ATTRS
        &&& l.keys.len() + n_attrs <= MAX_TABLE
        &&& l.values.len() + n_attrs <= MAX_TABLE
    }
}

/// The builder state after a successful `add_feature`.
pub open spec fn add_feature_spec(
    layers: Seq<LayerV>,
    name: Seq<u8>,
    extent: u32,
    gt: u32,
    commands: Seq<u32>,
    attrs: Seq<(Seq<u8>, TagV)>,
) -> Seq<LayerV> {
    if commands.len() == 0 {
        layers
    } else {
        let li = layer_index(layers, name);
        let base = if li < layers.len() {
            layers
        } else {
            layers.push(fresh_layer(name, extent))
        };
        let l = base[li];
        let (k2, v2, tags) = intern_attrs(l.keys, l.values, attrs, attrs.len() as int);
        base.update(li, LayerV {
            name: l.name,
            extent: l.extent,
            keys: k2,
            values: v2,
            features: l.features.push(FeatureV { geom_type: gt, commands, tags }),
        })
    }
}

/// Layer names are pairwise distinct.
pub open spec fn names_distinct(layers: Seq<LayerV>) -> bool {
    forall|i: int, j: int| #![trigger layers[i], layers[j]]
        0 <= i < j < layers.len() ==> layers[i].name != layers[j].name
}

/// Accumulates features for one tile request; never shared across
/// requests.
#[derive(Debug)]
pub struct TileBuilder {
    pub layers: Vec<EncodedLayer>,
}

impl View for TileBuilder {
    type V = Seq<LayerV>;

    open spec fn view(&self) -> Seq<LayerV> {
        self.layers@.map_values(|l: EncodedLayer| l@)
    }
}

/// The finished, ordered layer sequence of one tile.
#[derive(Debug)]
pub struct Tile {
    pub layers: Vec<EncodedLayer>,
}

impl View for Tile {
    type V = Seq<LayerV>;

    open spec fn view(&self) -> Seq<LayerV> {
        self.layers@.map_values(|l: EncodedLayer| l@)
    }
}

/// Layers that keep at least one feature, in their original order.
pub open spec fn keep_nonempty(layers: Seq<LayerV>, n: int) -> Seq<LayerV>
    decreases n,
{
    if n <= 0 {
        Seq::empty()
    } else {
        let p = keep_nonempty(layers, n - 1);
        if layers[n - 1].features.len() > 0 {
            p.push(layers[n - 1])
        } else {
            p
        }
    }
}

/// Byte-for-byte equality of two byte strings.
pub fn bytes_eq(a: &Vec<u8>, b: &Vec<u8>) -> (r: bool)
    ensures
        r == (a@ == b@),
{
    if a.len() != b.len() {
        return false;
    }
    let mut i: usize = 0;
    while i < a.len()
        invariant
            0 <= i <= a@.len(),
            a@.len() == b@.len(),
            forall|j: int| 0 <= j < i ==> #[trigger] a@[j] == b@[j],
        decreases a@.len() - i,
    {
        if a[i] != b[i] {
            return false;
        }
        i = i + 1;
    }
    proof {
        assert(a@ =~= b@);
    }
    true
}

/// Equality of two attribute values.
pub fn tag_eq(a: &TagValue, b: &TagValue) -> (r: bool)
    ensures
        r == (a@ == b@),
{
    match (a, b) {
        (TagValue::Str(x), TagValue::Str(y)) => bytes_eq(x, y),
        (TagValue::Int(x), TagValue::Int(y)) => *x == *y,
        (TagValue::Bool(x), TagValue::Bool(y)) => *x == *y,
        _ => false,
    }
}

/// Copies a byte string.
pub fn copy_bytes(v: &Vec<u8>) -> (r: Vec<u8>)
    ensures
        r@ == v@,
{
    let mut out: Vec<u8> = Vec::new();
    let mut i: usize = 0;
    while i < v.len()
        invariant
            0 <= i <= v@.len(),
            out@ == v@.take(i as int),
        decreases v@.len() - i,
    {
        out.push(v[i]);
        proof {
            assert(out@ =~= v@.take(i as int + 1));
        }
        i = i + 1;
    }
    proof {
        assert(out@ =~= v@);
    }
    out
}

/// Copies a command stream.
fn copy_u32s(v: &Vec<u32>) -> (r: Vec<u32>)
    ensures
        r@ == v@,
{
    let mut out: Vec<u32> = Vec::new();
    let mut i: usize = 0;
    while i < v.len()
        invariant
            0 <= i <= v@.len(),
            out@ == v@.take(i as int),
        decreases v@.len() - i,
    {
        out.push(v[i]);
        proof {
            assert(out@ =~= v@.take(i as int + 1));
        }
        i = i + 1;
    }
    proof {
        assert(out@ =~= v@);
    }
    out
}

/// Copies an attribute value.
fn copy_tag(v: &TagValue) -> (r: TagValue)
    ensures
        r@ == v@,
{
    match v {
        TagValue::Str(b) => TagValue::Str(copy_bytes(b)),
        TagValue::Int(i) => TagValue::Int(*i),
        TagValue::Bool(t) => TagValue::Bool(*t),
    }
}

/// Scans the key table for `k`.
fn find_key(keys: &Vec<Vec<u8>>, k: &Vec<u8>) -> (r: usize)
    ensures
        r == key_index(keys_view(keys@), k@),
{
    let ghost kv = keys_view(keys@);
    let mut i: usize = 0;
    while i < keys.len()
        invariant
            0 <= i <= keys@.len(),
            kv == keys_view(keys@),
            forall|j: int| 0 <= j < i ==> #[trigger] kv[j] != k@,
        decreases keys@.len() - i,
    {
        if bytes_eq(&keys[i], k) {
            proof {
                lemma_key_index(kv, k@);
                assert(kv[i as int] == k@);
                let x = key_index(kv, k@);
                if x < i as int {
                    assert(kv[x] != k@);
                    assert(kv[x] == k@);
                }
                if x > i as int {
                    assert(kv[i as int] != k@);
                }
            }
            return i;
        }
        i = i + 1;
    }
    proof {
        lemma_key_index(kv, k@);
        let x = key_index(kv, k@);
        if x < kv.len() as int {
            assert(kv[x] != k@);
            assert(kv[x] == k@);
        }
    }
    keys.len()
}

/// Scans the value table for `v`.
fn find_value(values: &Vec<TagValue>, v: &TagValue) -> (r: usize)
    ensures
        r == value_index(values_view(values@), v@),
{
    let ghost vv = values_view(values@);
    let mut i: usize = 0;
    while i < values.len()
        invariant
            0 <= i <= values@.len(),
            vv == values_view(values@),
            forall|j: int| 0 <= j < i ==> #[trigger] vv[j] != v@,
        decreases values@.len() - i,
    {
        if tag_eq(&values[i], v) {
            proof {
                lemma_value_index(vv, v@);
                assert(vv[i as int] == v@);
                let x = value_index(vv, v@);
                if x < i as int {
                    assert(vv[x] != v@);
                    assert(vv[x] == v@);
                }
                if x > i as int {
                    assert(vv[i as int] != v@);
                }
            }
            return i;
        }
        i = i + 1;
    }
    proof {
        lemma_value_index(vv, v@);
        let x = value_index(vv, v@);
        if x < vv.len() as int {
            assert(vv[x] != v@);
            assert(vv[x] == v@);
        }
    }
    values.len()
}

/// Scans the tile's layers for one with this name.
fn find_layer(layers: &Vec<EncodedLayer>, name: &Vec<u8>) -> (r: usize)
    ensures
        r == layer_index(layers@.map_values(|l: EncodedLayer| l@), name@),
{
    let ghost lv = layers@.map_values(|l: EncodedLayer| l@);
    let mut i: usize = 0;
    while i < layers.len()
        invariant
            0 <= i <= layers@.len(),
            lv == layers@.map_values(|l: EncodedLayer| l@),
            forall|j: int| 0 <= j < i ==> (#[trigger] lv[j]).name != name@,
        decreases layers@.len() - i,
    {
        if bytes_eq(&layers[i].name, name) {
            proof {
                lemma_layer_index(lv, name@);
                assert(lv[i as int].name == name@);
                let x = layer_index(lv, name@);
                if x < i as int {
                    assert(lv[x].name != name@);
                    assert(lv[x].name == name@);
                }
                if x > i as int {
                    assert(lv[i as int].name != name@);
                }
            }
            return i;
        }
        i = i + 1;
    }
    proof {
        lemma_layer_index(lv, name@);
        let x = layer_index(lv, name@);
        if x < lv.len() as int {
            assert(lv[x].name != name@);
            assert(lv[x].name == name@);
        }
    }
    layers.len()
}

impl TileBuilder {
    /// Every layer well-formed, with pairwise distinct names.
    pub open spec fn wf(self) -> bool {
        &&& names_distinct(self@)
        &&& forall|i: int| 0 <= i < self@.len() ==> layer_wf(#[trigger] self@[i])
    }

    /// A builder with no layers yet.
    pub fn new() -> (r: TileBuilder)
        ensures
            r.wf(),
            r@ == Seq::<LayerV>::empty(),
    {
        let r = TileBuilder { layers: Vec::new() };
        proof {
            assert(r@ =~= Seq::<LayerV>::empty());
        }
        r
    }

    /// Accumulates one feature into the named layer, creating the layer
    /// on first use and interning the feature's attribute keys and
    /// values: a first occurrence is appended to the table, a repeat
    /// reuses the existing index.  Features whose geometry collapsed to
    /// nothing are dropped silently.  Fails only when a table cap would
    /// be exceeded, leaving the builder unchanged.
    pub fn add_feature(&mut self, layer_name: &Vec<u8>, extent: u32, feature: &GeomFeature)
        -> (r: Result<(), Error>)
        requires
            old(self).wf(),
            1 <= extent <= MAX_EXTENT,
        ensures
            final(self).wf(),
            r is Ok <==> add_ok(old(self)@, layer_name@,
                feature.attributes@.len() as int, feature.geom.commands@.len() > 0),
            r is Ok ==> final(self)@ == add_feature_spec(old(self)@, layer_name@, extent,
                feature.geom.geom_type, feature.geom.commands@,
                attrs_view(feature.attributes@)),
            r is Err ==> final(self)@ == old(self)@ && (r matches Err(e) && e is EncodingOverflow),
    {
        if feature.geom.commands.len() == 0 {
            return Ok(());
        }
        let ghost layers0 = self@;
        let li = find_layer(&self.layers, layer_name);
        proof {
            lemma_layer_index(layers0, layer_name@);
        }
        let n_attrs = feature.attributes.len();
        if n_attrs > MAX_FEATURE_ATTRS {
            return Err(Error::EncodingOverflow);
        }
        if li < self.layers.len() {
            let klen = self.layers[li].keys.len();
            let vlen = self.layers[li].values.len();
            if klen > MAX_TABLE - n_attrs || vlen > MAX_TABLE - n_attrs {
                return Err(Error::EncodingOverflow);
            }
        }
        if li == self.layers.len() {
            let lay = EncodedLayer {
                name: copy_bytes(layer_name),
                extent,
                keys: Vec::new(),
                values: Vec::new(),
                features: Vec::new(),
            };
            proof {
                assert(lay@ =~~= fresh_layer(layer_name@, extent));
            }
            self.layers.push(lay);
            proof {
                assert(self@ =~= layers0.push(fresh_layer(layer_name@, extent)));
            }
        }
        let ghost base = self@;
        let ghost pre_remove = self.layers@;
        let mut lay = self.layers.remove(li);
        let ghost k0 = lay@.keys;
        let ghost v0 = lay@.values;
        let ghost att = attrs_view(feature.attributes@);
        proof {
            assert(lay@ == base[li as int]);
            lemma_intern_dedup(k0, v0, att, att.len() as int);
        }
        let mut tags: Vec<u32> = Vec::new();
        let mut j: usize = 0;
        proof {
            assert((keys_view(lay.keys@), values_view(lay.values@), tags@)
                =~~= intern_attrs(k0, v0, att, 0));
        }
        while j < n_attrs
            invariant
                0 <= j <= n_attrs == feature.attributes@.len(),
                att == attrs_view(feature.attributes@),
                att.len() == n_attrs,
                n_attrs <= MAX_FEATURE_ATTRS,
                (li as int) < base.len(),
                k0 == base[li as int].keys,
                v0 == base[li as int].values,
                k0.len() + n_attrs <= MAX_TABLE,
                v0.len() + n_attrs <= MAX_TABLE,
                keys_distinct(k0),
                values_distinct(v0),
                lay.name@ == base[li as int].name,
                lay.extent == base[li as int].extent,
                lay@.features == base[li as int].features,
                (keys_view(lay.keys@), values_view(lay.values@), tags@)
                    == intern_attrs(k0, v0, att, j as int),
            decreases n_attrs - j,
        {
            proof {
                lemma_intern_dedup(k0, v0, att, j as int);
                lemma_intern_dedup(k0, v0, att, j as int + 1);
            }
            let a = &feature.attributes[j];
            proof {
                assert(att[j as int] == (a.key@, a.value@));
            }
            let ki = find_key(&lay.keys, &a.key);
            proof {
                lemma_key_index(keys_view(lay.keys@), a.key@);
            }
            if ki == lay.keys.len() {
                let ghost ks_prev = keys_view(lay.keys@);
                lay.keys.push(copy_bytes(&a.key));
                proof {
                    assert(keys_view(lay.keys@) =~= ks_prev.push(a.key@));
                }
            }
            tags.push(ki as u32);
            let vi = find_value(&lay.values, &a.value);
            proof {
                lemma_value_index(values_view(lay.values@), a.value@);
            }
            if vi == lay.values.len() {
                let ghost vs_prev = values_view(lay.values@);
                lay.values.push(copy_tag(&a.value));
                proof {
                    assert(values_view(lay.values@) =~= vs_prev.push(a.value@));
                }
            }
            tags.push(vi as u32);
            proof {
                assert((keys_view(lay.keys@), values_view(lay.values@), tags@)
                    =~~= intern_attrs(k0, v0, att, j as int + 1));
            }
            j = j + 1;
        }
        let ef = EncodedFeature {
            geom_type: feature.geom.geom_type,
            commands: copy_u32s(&feature.geom.commands),
            tags,
        };
        proof {
            lemma_intern_dedup(k0, v0, att, att.len() as int);
        }
        let ghost feats_prev = lay@.features;
        lay.features.push(ef);
        proof {
            assert(lay@.features =~= feats_prev.push(ef@));
        }
        let ghost layv = lay@;
        let ghost lay_snapshot = lay;
        self.layers.insert(li, lay);
        proof {
            pre_remove.remove_ensures(li as int);
            pre_remove.remove(li as int).insert_ensures(li as int, lay_snapshot);
            assert(self.layers@ =~= pre_remove.update(li as int, lay_snapshot));
            assert forall|m: int| 0 <= m < base.len() && m != li as int implies
                #[trigger] self@[m] == base[m] by {
                assert(self.layers@[m] == pre_remove[m]);
            }
            assert(self@[li as int] == layv);
            let spec_new = LayerV {
                name: base[li as int].name,
                extent: base[li as int].extent,
                keys: intern_attrs(k0, v0, att, att.len() as int).0,
                values: intern_attrs(k0, v0, att, att.len() as int).1,
                features: base[li as int].features.push(FeatureV {
                    geom_type: feature.geom.geom_type,
                    commands: feature.geom.commands@,
                    tags: intern_attrs(k0, v0, att, att.len() as int).2,
                }),
            };
            assert(layv =~~= spec_new);
            assert(self@ =~~= base.update(li as int, spec_new));
            assert(self@ =~~= add_feature_spec(layers0, layer_name@, extent,
                feature.geom.geom_type, feature.geom.commands@, att));
            // well-formedness of the result
            assert(names_distinct(base));
            assert forall|m: int| 0 <= m < self@.len() implies
                layer_wf(#[trigger] self@[m]) by {
                if m == li as int {
                    assert forall|fi: int| 0 <= fi < self@[m].features.len() implies
                        feature_wf(#[trigger] self@[m].features[fi], self@[m]) by {
                        if fi < base[m].features.len() {
                            assert(base[m].features[fi] == self@[m].features[fi]);
                            assert(layer_wf(base[m]));
                            assert(feature_wf(base[m].features[fi], base[m]));
                        } else {
                            assert(self@[m].features[fi] == spec_new.features.last());
                        }
                    }
                } else {
                    assert(self@[m] == base[m]);
                    assert(layer_wf(base[m]));
                }
            }
            assert(names_distinct(self@));
        }
        Ok(())
    }

    /// Finalizes every layer, skipping those with zero features, and
    /// returns the ordered layer sequence.  An all-empty tile is an
    /// error only when `error_on_empty` says so; otherwise it is a valid
    /// tile with zero layers.
    pub fn finish(self, error_on_empty: bool) -> (r: Result<Tile, Error>)
        requires
            self.wf(),
        ensures
            r is Err <==> error_on_empty
                && keep_nonempty(self@, self@.len() as int).len() == 0,
            r matches Err(e) ==> e is TileEmpty,
            r matches Ok(t) ==> t@ == keep_nonempty(self@, self@.len() as int)
                && forall|i: int| 0 <= i < t@.len() ==> layer_wf(#[trigger] t@[i]),
    {
        let ghost orig = self@;
        let n = self.layers.len();
        let mut src = self.layers;
        let mut out: Vec<EncodedLayer> = Vec::new();
        let mut i: usize = 0;
        proof {
            assert(out@.map_values(|l: EncodedLayer| l@) =~= keep_nonempty(orig, 0));
            assert(src@.map_values(|l: EncodedLayer| l@) =~= orig.subrange(0, orig.len() as int));
        }
        while i < n
            invariant
                0 <= i <= n == orig.len(),
                src@.len() == n - i,
                src@.map_values(|l: EncodedLayer| l@)
                    == orig.subrange(i as int, orig.len() as int),
                out@.map_values(|l: EncodedLayer| l@) == keep_nonempty(orig, i as int),
                forall|k: int| 0 <= k < orig.len() ==> layer_wf(#[trigger] orig[k]),
                forall|k: int| 0 <= k < out@.len() ==> layer_wf((#[trigger] out@[k])@),
            decreases n - i,
        {
            let ghost prev = src@;
            let lay = src.remove(0);
            proof {
                prev.remove_ensures(0);
                assert(src@ =~= prev.subrange(1, prev.len() as int));
                assert(lay@ == prev.map_values(|l: EncodedLayer| l@)[0]);
                assert(lay@ == orig[i as int]);
                assert forall|m: int| 0 <= m < src@.len() implies
                    (#[trigger] src@[m])@
                        == orig.subrange(i as int + 1, orig.len() as int)[m] by {
                    assert(src@[m] == prev[m + 1]);
                    assert(prev.map_values(|l: EncodedLayer| l@)[m + 1]
                        == orig.subrange(i as int, orig.len() as int)[m + 1]);
                }
                assert(src@.map_values(|l: EncodedLayer| l@)
                    =~= orig.subrange(i as int + 1, orig.len() as int));
            }
            if lay.features.len() > 0 {
                out.push(lay);
                proof {
                    assert(out@.map_values(|l: EncodedLayer| l@)
                        =~= keep_nonempty(orig, i as int + 1));
                }
            } else {
                proof {
                    assert(out@.map_values(|l: EncodedLayer| l@)
                        =~= keep_nonempty(orig, i as int + 1));
                }
            }
            i = i + 1;
        }
        if error_on_empty && out.len() == 0 {
            return Err(Error::TileEmpty);
        }
        let t = Tile { layers: out };
        proof {
            assert(t@ == t.layers@.map_values(|l: EncodedLayer| l@));
            assert forall|k: int| 0 <= k < t@.len() implies layer_wf(#[trigger] t@[k]) by {
                assert(t@[k] == t.layers@[k]@);
            }
        }
        Ok(t)
    }
}

} // verus!
