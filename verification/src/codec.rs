//! Low-level wire primitives: zig-zag signed integers, MVT geometry
//! command integers, and protobuf base-128 varints.

use vstd::prelude::*;

verus! {

/// MVT command identifier: start a new point run.
pub const CMD_MOVE_TO: u32 = 1;

/// MVT command identifier: extend the current line or ring.
pub const CMD_LINE_TO: u32 = 2;

/// MVT command identifier: close the current ring.
pub const CMD_CLOSE_PATH: u32 = 7;

/// Zig-zag encoding of a signed value: non-negative values map to even
/// numbers, negative values to odd numbers.
pub open spec fn zigzag(d: int) -> int {
    if d >= 0 {
        2 * d
    } else {
        -2 * d - 1
    }
}

/// Inverse of `zigzag`.
pub open spec fn unzigzag(n: int) -> int {
    if n % 2 == 0 {
        n / 2
    } else {
        -((n + 1) / 2)
    }
}

/// Zig-zag encoding loses nothing: decoding recovers the delta.
pub proof fn lemma_zigzag_roundtrip(d: int)
    ensures
        unzigzag(zigzag(d)) == d,
{
    if d >= 0 {
        vstd::arithmetic::div_mod::lemma_fundamental_div_mod_converse_mod(2 * d, 2, d, 0);
        vstd::arithmetic::div_mod::lemma_fundamental_div_mod_converse_div(2 * d, 2, d, 0);
    } else {
        let n = -2 * d - 1;
        assert(n == (-d - 1) * 2 + 1);
        vstd::arithmetic::div_mod::lemma_fundamental_div_mod_converse_mod(n, 2, -d - 1, 1);
        assert(n + 1 == (-d) * 2 + 0);
        vstd::arithmetic::div_mod::lemma_fundamental_div_mod_converse_div(n + 1, 2, -d, 0);
    }
}

/// Zig-zag as a 32-bit wire value; callers keep `d` small enough to fit.
pub open spec fn zz_u32(d: int) -> u32
    recommends
        -0x4000_0000 <= d < 0x4000_0000,
{
    zigzag(d) as u32
}

/// Executable zig-zag encoding.
pub fn zigzag_encode(d: i64) -> (r: u32)
    requires
        -0x4000_0000 <= d < 0x4000_0000,
    ensures
        r == zz_u32(d as int),
        r == zigzag(d as int),
{
    if d >= 0 {
        (2 * d) as u32
    } else {
        let m: i64 = -d;
        (2 * m - 1) as u32
    }
}

/// Executable zig-zag decoding.
pub fn zigzag_decode(n: u32) -> (d: i64)
    ensures
        d == unzigzag(n as int),
{
    if n % 2 == 0 {
        (n / 2) as i64
    } else {
        -((((n as u64) + 1) / 2) as i64)
    }
}

/// An MVT command integer packs the command identifier into the low three
/// bits and the repeat count above them.
pub open spec fn command_integer(id: u32, count: int) -> u32
    recommends
        id == CMD_MOVE_TO || id == CMD_LINE_TO || id == CMD_CLOSE_PATH,
        0 <= count < 0x2000_0000,
{
    (id + 8 * count) as u32
}

/// Executable command integer construction.
pub fn make_command(id: u32, count: u32) -> (r: u32)
    requires
        id == CMD_MOVE_TO || id == CMD_LINE_TO || id == CMD_CLOSE_PATH,
        count < 0x2000_0000,
    ensures
        r == command_integer(id, count as int),
{
    id + 8 * count
}

/// Command identifier packed inside a command integer.
pub open spec fn command_id(c: int) -> int {
    c % 8
}

/// Repeat count packed inside a command integer.
pub open spec fn command_count(c: int) -> int {
    c / 8
}

/// Packing and unpacking command integers are inverse to each other.
pub proof fn lemma_command_roundtrip(id: u32, count: int)
    requires
        id < 8,
        0 <= count < 0x2000_0000,
    ensures
        command_id(command_integer(id, count) as int) == id,
        command_count(command_integer(id, count) as int) == count,
{
    vstd::arithmetic::div_mod::lemma_fundamental_div_mod_converse_mod(
        id + 8 * count, 8, count, id as int);
    vstd::arithmetic::div_mod::lemma_fundamental_div_mod_converse_div(
        id + 8 * count, 8, count, id as int);
}

/// Protobuf base-128 varint encoding: low seven bits first, the high bit
/// of each byte marking continuation.
pub open spec fn varint(n: nat) -> Seq<u8>
    decreases n,
{
    if n < 128 {
        seq![n as u8]
    } else {
        seq![(128 + n % 128) as u8] + varint(n / 128)
    }
}

/// Executable varint encoding.
pub fn varint_bytes(n: u64) -> (r: Vec<u8>)
    ensures
        r@ == varint(n as nat),
{
    let mut out: Vec<u8> = Vec::new();
    let mut cur: u64 = n;
    while cur >= 128
        invariant
            out@ + varint(cur as nat) == varint(n as nat),
        decreases cur,
    {
        let b: u8 = 128 + (cur % 128) as u8;
        proof {
            assert(varint(cur as nat) == seq![b] + varint((cur / 128) as nat));
            assert(out@ + (seq![b] + varint((cur / 128) as nat))
                =~= (out@ + seq![b]) + varint((cur / 128) as nat));
        }
        out.push(b);
        cur = cur / 128;
    }
    proof {
        assert(varint(cur as nat) == seq![cur as u8]);
        assert(out@ + seq![cur as u8] =~= out@.push(cur as u8));
    }
    out.push(cur as u8);
    out
}

} // verus!
