//! Raw protobuf wire format.
//!
//! The wire format is a length-prefixed binary format built around
//! variable-length integers: each varint byte carries 7 payload bits,
//! least-significant group first, with the continuation bit set on every
//! byte but the last.

use vstd::prelude::*;

verus! {

/// The bytes of the base-128 varint encoding of `v`.
pub open spec fn varint_bytes(v: u64) -> Seq<u8>
    decreases v,
{
    if v < 0x80 {
        seq![v as u8]
    } else {
        seq![((v % 0x80) + 0x80) as u8] + varint_bytes(v / 0x80)
    }
}

/// The number of bytes the varint encoding of `v` occupies.
pub open spec fn varint_byte_length(v: u64) -> int
    decreases v,
{
    if v < 0x80 {
        1
    } else {
        1 + varint_byte_length(v / 0x80)
    }
}

/// The length function agrees with the length of the encoded bytes,
/// for every 64-bit value.
pub proof fn lemma_varint_byte_length(v: u64)
    ensures
        varint_byte_length(v) == varint_bytes(v).len(),
    decreases v,
{
    if v >= 0x80 {
        lemma_varint_byte_length(v / 0x80);
    }
}

/// The `k`-th power of 128.
pub open spec fn pow128(k: nat) -> int
    decreases k,
{
    if k == 0 {
        1
    } else {
        0x80 * pow128((k - 1) as nat)
    }
}

proof fn lemma_pow128_pos(k: nat)
    ensures
        pow128(k) >= 1,
    decreases k,
{
    if k > 0 {
        lemma_pow128_pos((k - 1) as nat);
        assert(0x80 * pow128((k - 1) as nat) >= 1) by (nonlinear_arith)
            requires
                pow128((k - 1) as nat) >= 1,
        ;
    }
}

proof fn lemma_pow128_values()
    ensures
        pow128(0) == 1,
        pow128(1) == 0x80,
        pow128(2) == 0x4000,
        pow128(3) == 0x20_0000,
        pow128(4) == 0x1000_0000,
        pow128(5) == 0x8_0000_0000,
        pow128(6) == 0x400_0000_0000,
        pow128(7) == 0x2_0000_0000_0000,
        pow128(8) == 0x100_0000_0000_0000,
        pow128(9) == 0x8000_0000_0000_0000,
        pow128(10) == 0x40_0000_0000_0000_0000,
{
    assert(pow128(0) == 1);
    assert(pow128(1) == 0x80 * pow128(0));
    assert(pow128(2) == 0x80 * pow128(1));
    assert(pow128(3) == 0x80 * pow128(2));
    assert(pow128(4) == 0x80 * pow128(3));
    assert(pow128(5) == 0x80 * pow128(4));
    assert(pow128(6) == 0x80 * pow128(5));
    assert(pow128(7) == 0x80 * pow128(6));
    assert(pow128(8) == 0x80 * pow128(7));
    assert(pow128(9) == 0x80 * pow128(8));
    assert(pow128(10) == 0x80 * pow128(9));
}

/// A value below the `k`-th power of 128 encodes in at most `k` bytes.
proof fn lemma_varint_byte_length_le(v: u64, k: nat)
    requires
        1 <= k,
        (v as int) < pow128(k),
    ensures
        varint_byte_length(v) <= k,
    decreases k,
{
    if v >= 0x80 {
        let w = v / 0x80;
        lemma_pow128_pos((k - 1) as nat);
        assert((w as int) < pow128((k - 1) as nat)) by (nonlinear_arith)
            requires
                (v as int) < 0x80 * pow128((k - 1) as nat),
                w == v / 0x80,
                pow128((k - 1) as nat) >= 1,
        ;
        lemma_varint_byte_length_le(w, (k - 1) as nat);
    }
}

proof fn lemma_varint_byte_length_pos(v: u64)
    ensures
        varint_byte_length(v) >= 1,
    decreases v,
{
    if v >= 0x80 {
        lemma_varint_byte_length_pos(v / 0x80);
    }
}

/// A value between consecutive powers of 128 encodes in exactly `k + 1` bytes.
proof fn lemma_varint_byte_length_interval(v: u64, k: nat)
    requires
        pow128(k) <= v as int && (v as int) < pow128(k + 1),
    ensures
        varint_byte_length(v) == k + 1,
    decreases k,
{
    if k == 0 {
    } else {
        lemma_pow128_pos((k - 1) as nat);
        assert(pow128(k) >= 0x80) by (nonlinear_arith)
            requires
                pow128(k) == 0x80 * pow128((k - 1) as nat),
                pow128((k - 1) as nat) >= 1,
        ;
        let w = v / 0x80;
        assert(pow128((k - 1) as nat) <= w as int && (w as int) < pow128(k)) by (nonlinear_arith)
            requires
                pow128(k) <= v as int && (v as int) < pow128(k + 1),
                pow128(k) == 0x80 * pow128((k - 1) as nat),
                pow128(k + 1) == 0x80 * pow128(k),
                w == v / 0x80,
                pow128((k - 1) as nat) >= 1,
        ;
        lemma_varint_byte_length_interval(w, (k - 1) as nat);
    }
}

/// A varint never takes more than 10 bytes, and always at least 1.
pub proof fn lemma_varint_byte_length_bounds(v: u64)
    ensures
        1 <= varint_byte_length(v) <= 10,
{
    lemma_varint_byte_length_pos(v);
    lemma_pow128_values();
    lemma_varint_byte_length_le(v, 10);
}

/// The zig-zag mapping of a signed value: small magnitudes of either sign
/// map to small unsigned values.
pub open spec fn zigzag(v: i64) -> u64 {
    if v >= 0 {
        (2 * (v as int)) as u64
    } else {
        (-2 * (v as int) - 1) as u64
    }
}

/// The inverse of `zigzag`.
pub open spec fn zigzag_decode(u: u64) -> i64 {
    if u % 2 == 0 {
        ((u as int) / 2) as i64
    } else {
        (-(((u as int) + 1) / 2)) as i64
    }
}

/// Zig-zag encoding round-trips: decoding the unsigned value yields the
/// original signed value, for every 64-bit signed value.
pub proof fn lemma_zigzag_roundtrip(v: i64)
    ensures
        zigzag_decode(zigzag(v)) == v,
{
}

/// The three-bit wire-type number of `w`.
pub open spec fn wire_type_num(w: WireType) -> u64 {
    match w {
        WireType::VarInt => 0,
        WireType::I64 => 1,
        WireType::Len => 2,
        WireType::I32 => 5,
    }
}

/// The field tag for `field_number` with wire type `w`.
pub open spec fn field_tag(field_number: u64, w: WireType) -> u64 {
    (field_number << 3) | wire_type_num(w)
}

/// A value to be encoded as a variable-length integer.
#[derive(Debug, Clone, Copy)]
pub struct VarInt(u64);

impl View for VarInt {
    type V = u64;

    closed spec fn view(&self) -> u64 {
        self.0
    }
}

impl VarInt {
    /// Encode a 64-bit unsigned value.
    #[inline(always)]
    pub fn uint64(v: u64) -> (r: Self)
        ensures
            r@ == v,
    {
        VarInt(v)
    }

    /// Encode a 64-bit signed value by reinterpreting its bits; negative
    /// values occupy the full 10 bytes.
    #[inline(always)]
    pub fn sint64(v: i64) -> (r: Self)
        ensures
            r@ == v as u64,
    {
        #[verifier::truncate]
        let u = v as u64;
        VarInt(u)
    }

    /// Encode a 64-bit signed value with the zig-zag mapping.
    #[inline(always)]
    pub fn sint64z(v: i64) -> (r: Self)
        ensures
            r@ == zigzag(v),
    {
        if v >= 0 {
            VarInt((v as u64) * 2)
        } else {
            let m = -(v + 1);
            VarInt((m as u64) * 2 + 1)
        }
    }

    /// Encode a boolean as 0 or 1.
    #[inline(always)]
    pub fn bool(v: bool) -> (r: Self)
        ensures
            r@ == if v { 1u64 } else { 0u64 },
    {
        VarInt(if v { 1 } else { 0 })
    }

    /// Encode a 32-bit enum variant value, sign-extended.
    #[inline(always)]
    pub fn enum32(v: i32) -> (r: Self)
        ensures
            r@ == v as u64,
    {
        #[verifier::truncate]
        let u = v as u64;
        VarInt(u)
    }

    /// The field tag for `field_number` with wire type `wire_type`.
    #[inline(always)]
    pub fn field(field_number: u64, wire_type: WireType) -> (r: Self)
        ensures
            r@ == field_tag(field_number, wire_type),
    {
        let num: u64 = match wire_type {
            WireType::VarInt => 0,
            WireType::I64 => 1,
            WireType::Len => 2,
            WireType::I32 => 5,
        };
        VarInt((field_number << 3u64) | num)
    }

    /// The encoded bytes of this varint.
    pub fn fill_bytes(&self) -> (r: Vec<u8>)
        ensures
            r@ == varint_bytes(self@),
    {
        let mut out: Vec<u8> = Vec::new();
        let mut v = self.0;
        while v >= 0x80
            invariant
                varint_bytes(self.0) == out@ + varint_bytes(v),
            decreases v,
        {
            out.push(((v % 0x80) + 0x80) as u8);
            proof {
                assert(varint_bytes(self.0) =~= out@ + varint_bytes(v / 0x80));
            }
            v = v / 0x80;
        }
        out.push(v as u8);
        proof {
            assert(varint_bytes(self.0) =~= out@);
        }
        out
    }

    /// The number of bytes this varint encodes to.
    #[inline(always)]
    pub fn len(&self) -> (r: usize)
        ensures
            r == varint_byte_length(self@),
    {
        let v = self.0;
        proof {
            lemma_pow128_values();
            if v < 0x80 {
            } else if v < 0x4000 {
                lemma_varint_byte_length_interval(v, 1);
            } else if v < 0x20_0000 {
                lemma_varint_byte_length_interval(v, 2);
            } else if v < 0x1000_0000 {
                lemma_varint_byte_length_interval(v, 3);
            } else if v < 0x8_0000_0000 {
                lemma_varint_byte_length_interval(v, 4);
            } else if v < 0x400_0000_0000 {
                lemma_varint_byte_length_interval(v, 5);
            } else if v < 0x2_0000_0000_0000 {
                lemma_varint_byte_length_interval(v, 6);
            } else if v < 0x100_0000_0000_0000 {
                lemma_varint_byte_length_interval(v, 7);
            } else if v < 0x8000_0000_0000_0000 {
                lemma_varint_byte_length_interval(v, 8);
            } else {
                lemma_varint_byte_length_interval(v, 9);
            }
        }
        if v < 0x80 {
            1
        } else if v < 0x4000 {
            2
        } else if v < 0x20_0000 {
            3
        } else if v < 0x1000_0000 {
            4
        } else if v < 0x8_0000_0000 {
            5
        } else if v < 0x400_0000_0000 {
            6
        } else if v < 0x2_0000_0000_0000 {
            7
        } else if v < 0x100_0000_0000_0000 {
            8
        } else if v < 0x8000_0000_0000_0000 {
            9
        } else {
            10
        }
    }
}

/// The little-endian bytes of `v`, `n` bytes long.
pub open spec fn le_bytes(v: int, n: nat) -> Seq<u8>
    decreases n,
{
    if n == 0 {
        Seq::empty()
    } else {
        seq![(v % 256) as u8] + le_bytes(v / 256, (n - 1) as nat)
    }
}

/// A value to be encoded in exactly 32 bits, little-endian.
#[derive(Debug, Clone, Copy)]
pub struct I32(u32);

impl View for I32 {
    type V = u32;

    closed spec fn view(&self) -> u32 {
        self.0
    }
}

impl I32 {
    /// Encode a 32-bit unsigned value.
    #[inline(always)]
    pub fn fixed32(v: u32) -> (r: Self)
        ensures
            r@ == v,
    {
        I32(v)
    }

    /// Encode a 32-bit signed value by reinterpreting its bits.
    #[inline(always)]
    pub fn sfixed32(v: i32) -> (r: Self)
        ensures
            r@ == v as u32,
    {
        #[verifier::truncate]
        let u = v as u32;
        I32(u)
    }

    /// The four little-endian bytes of the value.
    #[inline(always)]
    pub fn to_bytes(&self) -> (r: Vec<u8>)
        ensures
            r@ == le_bytes(self@ as int, 4),
    {
        le_bytes_u64(self.0 as u64, 4)
    }

    /// The encoded size: always four bytes.
    #[inline(always)]
    pub fn len(&self) -> (r: usize)
        ensures
            r == 4,
    {
        4
    }
}

/// A value to be encoded in exactly 64 bits, little-endian.
#[derive(Debug, Clone, Copy)]
pub struct I64(u64);

impl View for I64 {
    type V = u64;

    closed spec fn view(&self) -> u64 {
        self.0
    }
}

impl I64 {
    /// Encode a 64-bit unsigned value.
    #[inline(always)]
    pub fn fixed64(v: u64) -> (r: Self)
        ensures
            r@ == v,
    {
        I64(v)
    }

    /// Encode a 64-bit signed value by reinterpreting its bits.
    #[inline(always)]
    pub fn sfixed64(v: i64) -> (r: Self)
        ensures
            r@ == v as u64,
    {
        #[verifier::truncate]
        let u = v as u64;
        I64(u)
    }

    /// The eight little-endian bytes of the value.
    #[inline(always)]
    pub fn to_bytes(&self) -> (r: Vec<u8>)
        ensures
            r@ == le_bytes(self@ as int, 8),
    {
        le_bytes_u64(self.0, 8)
    }

    /// The encoded size: always eight bytes.
    #[inline(always)]
    pub fn len(&self) -> (r: usize)
        ensures
            r == 8,
    {
        8
    }
}

/// The low `n` little-endian bytes of `v`.
pub fn le_bytes_u64(v: u64, n: usize) -> (r: Vec<u8>)
    ensures
        r@ == le_bytes(v as int, n as nat),
{
    let mut out: Vec<u8> = Vec::new();
    let mut x = v;
    let mut i: usize = 0;
    while i < n
        invariant
            i <= n,
            le_bytes(v as int, n as nat) == out@ + le_bytes(x as int, (n - i) as nat),
        decreases n - i,
    {
        out.push((x % 256) as u8);
        proof {
            assert(le_bytes(v as int, n as nat) =~= out@ + le_bytes(
                (x as int) / 256,
                (n - i - 1) as nat,
            ));
        }
        x = x / 256;
        i = i + 1;
    }
    proof {
        assert(le_bytes(v as int, n as nat) =~= out@);
    }
    out
}

/// The low `n` little-endian bytes of a 128-bit value.
pub fn le_bytes_u128(v: u128, n: usize) -> (r: Vec<u8>)
    ensures
        r@ == le_bytes(v as int, n as nat),
{
    let mut out: Vec<u8> = Vec::new();
    let mut x = v;
    let mut i: usize = 0;
    while i < n
        invariant
            i <= n,
            le_bytes(v as int, n as nat) == out@ + le_bytes(x as int, (n - i) as nat),
        decreases n - i,
    {
        out.push((x % 256) as u8);
        proof {
            assert(le_bytes(v as int, n as nat) =~= out@ + le_bytes(
                (x as int) / 256,
                (n - i - 1) as nat,
            ));
        }
        x = x / 256;
        i = i + 1;
    }
    proof {
        assert(le_bytes(v as int, n as nat) =~= out@);
    }
    out
}

/// The shape of a field's payload, as a three-bit wire-type number.
#[derive(Debug, Clone, Copy, PartialEq, Eq, Structural)]
pub enum WireType {
    VarInt,
    I64,
    Len,
    I32,
}

} // verus!
