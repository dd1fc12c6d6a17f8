//! MVT wire serialization: the tile's layers as a protobuf message.
//!
//! Field layout per layer: name (1, bytes), features (2, messages), keys
//! (3, bytes), values (4, messages), extent (5, varint), version (15,
//! varint, always 2).  A feature carries tags (2, packed varints), its
//! geometry type (3, varint) and the command stream (4, packed varints).
//! Attribute values use string (1), zig-zag integer (6) and boolean (7)
//! fields.  The tile itself is a sequence of layer fields (3, messages).

use vstd::prelude::*;

use crate::codec::{varint, varint_bytes, zigzag};
use crate::error::Error;
use crate::tile::{
    EncodedFeature, EncodedLayer, FeatureV, LayerV, TagV, TagValue, Tile, copy_bytes,
};

verus! {

/// A varint-typed protobuf field: key then value.
pub open spec fn field_varint(field: nat, v: nat) -> Seq<u8> {
    varint(field * 8) + varint(v)
}

/// A length-delimited protobuf field: key, length, payload.
pub open spec fn field_bytes(field: nat, payload: Seq<u8>) -> Seq<u8> {
    varint(field * 8 + 2) + varint(payload.len()) + payload
}

/// Packed varint encoding of the first `n` words.
pub open spec fn packed_u32s(s: Seq<u32>, n: int) -> Seq<u8>
    decreases n,
{
    if n <= 0 {
        Seq::empty()
    } else {
        packed_u32s(s, n - 1) + varint(s[n - 1] as nat)
    }
}

/// Wire form of one attribute value.
pub open spec fn value_bytes(v: TagV) -> Seq<u8> {
    match v {
        TagV::Str(s) => field_bytes(1, s),
        TagV::Int(i) => field_varint(6, zigzag(i) as nat),
        TagV::Bool(t) => field_varint(7, if t { 1 as nat } else { 0 as nat }),
    }
}

/// Wire form of one feature message.
pub open spec fn feature_bytes(f: FeatureV) -> Seq<u8> {
    field_bytes(2, packed_u32s(f.tags, f.tags.len() as int))
        + field_varint(3, f.geom_type as nat)
        + field_bytes(4, packed_u32s(f.commands, f.commands.len() as int))
}

/// Concatenated feature fields of one layer.
pub open spec fn features_bytes(features: Seq<FeatureV>, n: int) -> Seq<u8>
    decreases n,
{
    if n <= 0 {
        Seq::empty()
    } else {
        features_bytes(features, n - 1) + field_bytes(2, feature_bytes(features[n - 1]))
    }
}

/// Concatenated key-table fields of one layer.
pub open spec fn keys_bytes(keys: Seq<Seq<u8>>, n: int) -> Seq<u8>
    decreases n,
{
    if n <= 0 {
        Seq::empty()
    } else {
        keys_bytes(keys, n - 1) + field_bytes(3, keys[n - 1])
    }
}

/// Concatenated value-table fields of one layer.
pub open spec fn values_bytes(values: Seq<TagV>, n: int) -> Seq<u8>
    decreases n,
{
    if n <= 0 {
        Seq::empty()
    } else {
        values_bytes(values, n - 1) + field_bytes(4, value_bytes(values[n - 1]))
    }
}

/// Wire form of one layer message.
pub open spec fn layer_bytes(l: LayerV) -> Seq<u8> {
    field_bytes(1, l.name)
        + features_bytes(l.features, l.features.len() as int)
        + keys_bytes(l.keys, l.keys.len() as int)
        + values_bytes(l.values, l.values.len() as int)
        + field_varint(5, l.extent as nat)
        + field_varint(15, 2)
}

/// Wire form of the whole tile: one layer field per layer, in order.
pub open spec fn tile_bytes(layers: Seq<LayerV>, n: int) -> Seq<u8>
    decreases n,
{
    if n <= 0 {
        Seq::empty()
    } else {
        tile_bytes(layers, n - 1) + field_bytes(3, layer_bytes(layers[n - 1]))
    }
}

/// Appends one varint.
fn push_varint(out: &mut Vec<u8>, v: u64)
    ensures
        final(out)@ == old(out)@ + varint(v as nat),
{
    let mut b = varint_bytes(v);
    out.append(&mut b);
}

/// Appends a varint-typed field.
fn push_field_varint(out: &mut Vec<u8>, field: u32, v: u64)
    requires
        1 <= field <= 15,
    ensures
        final(out)@ == old(out)@ + field_varint(field as nat, v as nat),
{
    push_varint(out, (field * 8) as u64);
    push_varint(out, v);
    proof {
        assert(final(out)@ =~= old(out)@ + field_varint(field as nat, v as nat));
    }
}

/// Appends a length-delimited field.
fn push_field_bytes(out: &mut Vec<u8>, field: u32, payload: &Vec<u8>)
    requires
        1 <= field <= 15,
    ensures
        final(out)@ == old(out)@ + field_bytes(field as nat, payload@),
{
    push_varint(out, (field * 8 + 2) as u64);
    push_varint(out, payload.len() as u64);
    let mut b = copy_bytes(payload);
    out.append(&mut b);
    proof {
        assert(payload.len() as u64 as nat == payload@.len());
        assert(final(out)@ =~= old(out)@ + field_bytes(field as nat, payload@));
    }
}

/// Packed varint encoding of a word list.
fn encode_packed(s: &Vec<u32>) -> (r: Vec<u8>)
    ensures
        r@ == packed_u32s(s@, s@.len() as int),
{
    let mut out: Vec<u8> = Vec::new();
    let mut i: usize = 0;
    proof {
        assert(out@ =~= packed_u32s(s@, 0));
    }
    while i < s.len()
        invariant
            0 <= i <= s@.len(),
            out@ == packed_u32s(s@, i as int),
        decreases s@.len() - i,
    {
        push_varint(&mut out, s[i] as u64);
        proof {
            assert(out@ =~= packed_u32s(s@, i as int + 1));
        }
        i = i + 1;
    }
    out
}

/// Wire form of one attribute value.
fn encode_value(v: &TagValue) -> (r: Vec<u8>)
    ensures
        r@ == value_bytes(v@),
{
    let mut out: Vec<u8> = Vec::new();
    match v {
        TagValue::Str(s) => {
            push_field_bytes(&mut out, 1, s);
        }
        TagValue::Int(i) => {
            let iv: i64 = *i;
            let zz: u64 = if iv >= 0 {
                (iv as u64) * 2
            } else {
                ((-(iv + 1)) as u64) * 2 + 1
            };
            proof {
                assert(zz as nat == zigzag(iv as int) as nat);
            }
            push_field_varint(&mut out, 6, zz);
        }
        TagValue::Bool(t) => {
            push_field_varint(&mut out, 7, if *t { 1 } else { 0 });
        }
    }
    proof {
        assert(out@ =~= value_bytes(v@));
    }
    out
}

/// Wire form of one feature message.
fn encode_feature(f: &EncodedFeature) -> (r: Vec<u8>)
    ensures
        r@ == feature_bytes(f@),
{
    let mut out: Vec<u8> = Vec::new();
    let tags = encode_packed(&f.tags);
    push_field_bytes(&mut out, 2, &tags);
    push_field_varint(&mut out, 3, f.geom_type as u64);
    let cmds = encode_packed(&f.commands);
    push_field_bytes(&mut out, 4, &cmds);
    proof {
        assert(out@ =~= feature_bytes(f@));
    }
    out
}

/// Wire form of one layer message.
fn encode_layer(l: &EncodedLayer) -> (r: Vec<u8>)
    ensures
        r@ == layer_bytes(l@),
{
    let mut out: Vec<u8> = Vec::new();
    push_field_bytes(&mut out, 1, &l.name);
    let ghost head = out@;
    let mut i: usize = 0;
    proof {
        assert(out@ =~= head + features_bytes(l@.features, 0));
    }
    while i < l.features.len()
        invariant
            0 <= i <= l.features@.len(),
            l@.features.len() == l.features@.len(),
            out@ == head + features_bytes(l@.features, i as int),
        decreases l.features@.len() - i,
    {
        let fb = encode_feature(&l.features[i]);
        push_field_bytes(&mut out, 2, &fb);
        proof {
            assert(l@.features[i as int] == l.features@[i as int]@);
            assert(out@ =~= head + features_bytes(l@.features, i as int + 1));
        }
        i = i + 1;
    }
    let ghost head2 = out@;
    let mut i: usize = 0;
    proof {
        assert(out@ =~= head2 + keys_bytes(l@.keys, 0));
    }
    while i < l.keys.len()
        invariant
            0 <= i <= l.keys@.len(),
            l@.keys.len() == l.keys@.len(),
            out@ == head2 + keys_bytes(l@.keys, i as int),
        decreases l.keys@.len() - i,
    {
        push_field_bytes(&mut out, 3, &l.keys[i]);
        proof {
            assert(l@.keys[i as int] == l.keys@[i as int]@);
            assert(out@ =~= head2 + keys_bytes(l@.keys, i as int + 1));
        }
        i = i + 1;
    }
    let ghost head3 = out@;
    let mut i: usize = 0;
    proof {
        assert(out@ =~= head3 + values_bytes(l@.values, 0));
    }
    while i < l.values.len()
        invariant
            0 <= i <= l.values@.len(),
            l@.values.len() == l.values@.len(),
            out@ == head3 + values_bytes(l@.values, i as int),
        decreases l.values@.len() - i,
    {
        let vb = encode_value(&l.values[i]);
        push_field_bytes(&mut out, 4, &vb);
        proof {
            assert(l@.values[i as int] == l.values@[i as int]@);
            assert(out@ =~= head3 + values_bytes(l@.values, i as int + 1));
        }
        i = i + 1;
    }
    push_field_varint(&mut out, 5, l.extent as u64);
    push_field_varint(&mut out, 15, 2);
    proof {
        assert(out@ =~= layer_bytes(l@));
    }
    out
}

/// Serializes a finished tile to its MVT byte payload.  Fails exactly
/// when the payload exceeds `max_bytes`, the configured size cap.
pub fn serialize_tile(t: &Tile, max_bytes: usize) -> (r: Result<Vec<u8>, Error>)
    ensures
        r matches Ok(b) ==> b@ == tile_bytes(t@, t@.len() as int) && b@.len() <= max_bytes,
        r is Err <==> tile_bytes(t@, t@.len() as int).len() > max_bytes,
        r matches Err(e) ==> e is EncodingOverflow,
{
    let mut out: Vec<u8> = Vec::new();
    let mut i: usize = 0;
    proof {
        assert(out@ =~= tile_bytes(t@, 0));
    }
    while i < t.layers.len()
        invariant
            0 <= i <= t.layers@.len(),
            t@.len() == t.layers@.len(),
            out@ == tile_bytes(t@, i as int),
        decreases t.layers@.len() - i,
    {
        let lb = encode_layer(&t.layers[i]);
        push_field_bytes(&mut out, 3, &lb);
        proof {
            assert(t@[i as int] == t.layers@[i as int]@);
            assert(out@ =~= tile_bytes(t@, i as int + 1));
        }
        i = i + 1;
    }
    if out.len() > max_bytes {
        return Err(Error::EncodingOverflow);
    }
    Ok(out)
}

} // verus!
