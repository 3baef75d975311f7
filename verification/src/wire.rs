//! Wire primitives: wire types, tag bytes, varints and the zig-zag transform.
//!
//! A tag byte has the wire type in its low three bits. Where the wire type
//! carries a varint (`Int`, `Sequence`, `Bytes`, `Variant`), bits 3 to 6 hold
//! the low four bits of the value and bit 7 says whether continuation bytes
//! follow, each with seven more bits and its own continuation flag.

use crate::error::Error;
use vstd::arithmetic::div_mod::{
    lemma_fundamental_div_mod, lemma_fundamental_div_mod_converse, lemma_small_mod,
};
use vstd::prelude::*;

verus! {

/// The payload layout selected by the low three bits of a tag byte.
#[derive(Debug, Clone, Copy, PartialEq, Eq, Structural)]
pub enum WireType {
    /// A varint of up to 128 bits.
    Int,
    /// Exactly four little-endian bytes.
    Fixed32,
    /// Exactly eight little-endian bytes.
    Fixed64,
    /// A varint count followed by that many items.
    Sequence,
    /// A varint count followed by that many raw bytes.
    Bytes,
    /// A varint discriminant followed by exactly one item.
    Variant,
    /// Reserved code 6; never written.
    _Reserved1,
    /// Reserved code 7; never written.
    _Reserved2,
}

impl WireType {
    /// The three-bit code of this wire type.
    pub open spec fn code(self) -> u8 {
        match self {
            WireType::Int => 0,
            WireType::Fixed32 => 1,
            WireType::Fixed64 => 2,
            WireType::Sequence => 3,
            WireType::Bytes => 4,
            WireType::Variant => 5,
            WireType::_Reserved1 => 6,
            WireType::_Reserved2 => 7,
        }
    }

    /// The three-bit code of this wire type, as a byte.
    pub fn as_u8(self) -> (c: u8)
        ensures
            c == self.code(),
    {
        match self {
            WireType::Int => 0,
            WireType::Fixed32 => 1,
            WireType::Fixed64 => 2,
            WireType::Sequence => 3,
            WireType::Bytes => 4,
            WireType::Variant => 5,
            WireType::_Reserved1 => 6,
            WireType::_Reserved2 => 7,
        }
    }
}

/// The wire type named by the low three bits of `tagbyte`.
pub open spec fn spec_wiretype(tagbyte: u8) -> WireType {
    let code = tagbyte % 8;
    if code == 0 {
        WireType::Int
    } else if code == 1 {
        WireType::Fixed32
    } else if code == 2 {
        WireType::Fixed64
    } else if code == 3 {
        WireType::Sequence
    } else if code == 4 {
        WireType::Bytes
    } else if code == 5 {
        WireType::Variant
    } else if code == 6 {
        WireType::_Reserved1
    } else {
        WireType::_Reserved2
    }
}

/// Reads the wire type out of a tag byte. Codes 6 and 7 come back as the
/// reserved variants, which every decoding path rejects.
pub fn read_wiretype(tagbyte: u8) -> (wt: WireType)
    ensures
        wt == spec_wiretype(tagbyte),
        wt.code() == tagbyte % 8,
{
    let tag: u8 = tagbyte & 7;
    assert(tagbyte & 7 == tagbyte % 8) by (bit_vector);
    match tag {
        0 => WireType::Int,
        1 => WireType::Fixed32,
        2 => WireType::Fixed64,
        3 => WireType::Sequence,
        4 => WireType::Bytes,
        5 => WireType::Variant,
        6 => WireType::_Reserved1,
        _ => WireType::_Reserved2,
    }
}

/// The continuation bytes that spell `rest`: seven bits a byte, least
/// significant group first, the continuation flag on all but the last.
pub open spec fn tail_bytes(rest: nat) -> Seq<u8>
    decreases rest,
{
    if rest < 128 {
        seq![rest as u8]
    } else {
        seq![(128 + rest % 128) as u8] + tail_bytes(rest / 128)
    }
}

/// The tag byte of a varint: the wire type in bits 0 to 2, the low four bits
/// of `value` in bits 3 to 6, and in bit 7 whether continuation bytes follow.
pub open spec fn tag_byte(wt: WireType, value: nat) -> u8 {
    if value < 16 {
        (wt.code() + 8 * value) as u8
    } else {
        (wt.code() + 8 * (value % 16) + 128) as u8
    }
}

/// The bytes of a varint: the tag byte, then the continuation bytes for what
/// the tag byte could not hold.
pub open spec fn varint_bytes(wt: WireType, value: nat) -> Seq<u8> {
    if value < 16 {
        seq![tag_byte(wt, value)]
    } else {
        seq![tag_byte(wt, value)] + tail_bytes(value / 16)
    }
}

/// Appends the varint of `value`, tagged with `tag`, to `writer`. The sink is
/// in memory, so this always succeeds.
pub fn write_varint(writer: &mut Vec<u8>, tag: WireType, value: u64) -> (r: Result<(), Error>)
    ensures
        r is Ok,
        final(writer)@ == old(writer)@ + varint_bytes(tag, value as nat),
{
    let ghost start = writer@;
    let code = tag.as_u8();
    assert((value & 15) << 3 == 8 * (value % 16)) by (bit_vector);
    assert(value >> 4 == value / 16) by (bit_vector);
    let partial: u8 = ((value & 15) << 3) as u8;
    let mut rest: u64 = value >> 4;
    assert(code | partial == code + partial) by (bit_vector)
        requires
            code < 8,
            partial % 8 == 0,
            partial < 128,
    ;
    if rest == 0 {
        writer.push(code | partial);
        assert(writer@ =~= start + varint_bytes(tag, value as nat));
        return Ok(());
    }
    assert(code | partial | 0x80 == code + partial + 128) by (bit_vector)
        requires
            code < 8,
            partial % 8 == 0,
            partial < 128,
    ;
    writer.push(code | partial | 0x80);
    loop
        invariant_except_break
            rest > 0,
            writer@ + tail_bytes(rest as nat) == start + varint_bytes(tag, value as nat),
        ensures
            writer@ == start + varint_bytes(tag, value as nat),
        decreases rest,
    {
        let ghost before = writer@;
        assert((rest & 0x7f) == rest % 128) by (bit_vector);
        assert(rest >> 7 == rest / 128) by (bit_vector);
        let partial: u8 = (rest & 0x7f) as u8;
        let next: u64 = rest >> 7;
        if next == 0 {
            writer.push(partial);
            assert(writer@ =~= before + tail_bytes(rest as nat));
            break ;
        }
        assert(partial | 0x80 == 128 + partial) by (bit_vector)
            requires
                partial < 128,
        ;
        writer.push(partial | 0x80);
        assert(writer@ + tail_bytes(next as nat) =~= before + tail_bytes(rest as nat));
        rest = next;
    }
    Ok(())
}

/// Appends the varint of a 128-bit `value`, tagged with `tag`, to `writer`.
/// The sink is in memory, so this always succeeds.
pub fn write_varint_128(writer: &mut Vec<u8>, tag: WireType, value: u128) -> (r: Result<
    (),
    Error,
>)
    ensures
        r is Ok,
        final(writer)@ == old(writer)@ + varint_bytes(tag, value as nat),
{
    let ghost start = writer@;
    let code = tag.as_u8();
    assert((value & 15) << 3 == 8 * (value % 16)) by (bit_vector);
    assert(value >> 4 == value / 16) by (bit_vector);
    let partial: u8 = ((value & 15) << 3) as u8;
    let mut rest: u128 = value >> 4;
    assert(code | partial == code + partial) by (bit_vector)
        requires
            code < 8,
            partial % 8 == 0,
            partial < 128,
    ;
    if rest == 0 {
        writer.push(code | partial);
        assert(writer@ =~= start + varint_bytes(tag, value as nat));
        return Ok(());
    }
    assert(code | partial | 0x80 == code + partial + 128) by (bit_vector)
        requires
            code < 8,
            partial % 8 == 0,
            partial < 128,
    ;
    writer.push(code | partial | 0x80);
    loop
        invariant_except_break
            rest > 0,
            writer@ + tail_bytes(rest as nat) == start + varint_bytes(tag, value as nat),
        ensures
            writer@ == start + varint_bytes(tag, value as nat),
        decreases rest,
    {
        let ghost before = writer@;
        assert((rest & 0x7f) == rest % 128) by (bit_vector);
        assert(rest >> 7 == rest / 128) by (bit_vector);
        let partial: u8 = (rest & 0x7f) as u8;
        let next: u128 = rest >> 7;
        if next == 0 {
            writer.push(partial);
            assert(writer@ =~= before + tail_bytes(rest as nat));
            break ;
        }
        assert(partial | 0x80 == 128 + partial) by (bit_vector)
            requires
                partial < 128,
        ;
        writer.push(partial | 0x80);
        assert(writer@ + tail_bytes(next as nat) =~= before + tail_bytes(rest as nat));
        rest = next;
    }
    Ok(())
}

/// How many bytes at the start of `data` have the continuation flag set.
pub open spec fn continued(data: Seq<u8>) -> nat
    decreases data.len(),
{
    if data.len() == 0 || data[0] < 128 {
        0
    } else {
        1 + continued(data.drop_first())
    }
}

/// The number that the low seven bits of each byte of `data` spell, least
/// significant group first.
pub open spec fn groups(data: Seq<u8>) -> nat
    decreases data.len(),
{
    if data.len() == 0 {
        0
    } else {
        (data[0] % 128) as nat + 128 * groups(data.drop_first())
    }
}

/// How many bytes of `data` belong to the varint that `tagbyte` starts, for a
/// reader that accepts at most `max` continuation bytes: none if the tag byte
/// has no continuation flag, else up to and including the first byte without
/// one. A longer run is an overflow; a run that reaches the end of `data`
/// without stopping is an unexpected end of input.
pub open spec fn varint_span(tagbyte: u8, data: Seq<u8>, max: nat) -> Result<nat, Error> {
    if tagbyte < 128 {
        Ok(0)
    } else if continued(data) < max && continued(data) < data.len() {
        Ok(continued(data) + 1)
    } else if data.len() > max {
        Err(Error::ValueOverflow)
    } else {
        Err(Error::UnexpectedEndOfInput)
    }
}

/// The unbounded value of the varint that `tagbyte` starts and `data`
/// continues: bits 3 to 6 of the tag byte, then seven bits from each
/// continuation byte.
pub open spec fn varint_value(tagbyte: u8, data: Seq<u8>) -> nat {
    if tagbyte < 128 {
        (tagbyte / 8) as nat
    } else {
        ((tagbyte % 128) / 8) as nat + 16 * groups(data.take((continued(data) + 1) as int))
    }
}

/// Two to the power 64: what a 64-bit reader keeps a varint's value modulo.
pub open spec fn modulus_64() -> nat {
    0x1_0000_0000_0000_0000
}

/// Two to the power 128: what a 128-bit reader keeps a varint's value modulo.
pub open spec fn modulus_128() -> nat {
    (u128::MAX as nat) + 1
}

/// The weight of continuation byte `i`, relative to the first: 128 to the `i`.
pub open spec fn pow128(i: nat) -> nat
    decreases i,
{
    if i == 0 {
        1
    } else {
        128 * pow128((i - 1) as nat)
    }
}

/// A run of `i` flagged bytes at the start of `data` bounds `continued` from
/// below, and a stop byte or the end of `data` right after it fixes it.
pub proof fn lemma_continued(data: Seq<u8>, i: int)
    requires
        0 <= i <= data.len(),
        forall|j: int| 0 <= j < i ==> data[j] >= 128,
    ensures
        continued(data) >= i,
        (i == data.len() || data[i] < 128) ==> continued(data) == i,
    decreases i,
{
    if i > 0 {
        let rest = data.drop_first();
        assert forall|j: int| 0 <= j < i - 1 implies rest[j] >= 128 by {
            assert(rest[j] == data[j + 1]);
        }
        lemma_continued(rest, i - 1);
        if i < data.len() {
            assert(rest[i - 1] == data[i]);
        }
    }
}

/// Appending a byte to `s` adds its low seven bits at the next weight.
pub proof fn lemma_groups_push(s: Seq<u8>, b: u8)
    ensures
        groups(s.push(b)) == groups(s) + (b % 128) * pow128(s.len()),
    decreases s.len(),
{
    let t = s.push(b);
    assert(t.len() == s.len() + 1);
    assert(groups(t) == (t[0] % 128) as nat + 128 * groups(t.drop_first()));
    if s.len() == 0 {
        assert(t.drop_first() =~= Seq::<u8>::empty());
        assert(groups(t.drop_first()) == 0);
        assert((b % 128) * pow128(0) == b % 128) by (nonlinear_arith)
            requires
                pow128(0) == 1,
        ;
    } else {
        assert(t.drop_first() =~= s.drop_first().push(b));
        assert(t[0] == s[0]);
        lemma_groups_push(s.drop_first(), b);
        assert(128 * ((b % 128) * pow128((s.len() - 1) as nat)) == (b % 128) * pow128(s.len()))
            by (nonlinear_arith)
            requires
                pow128(s.len()) == 128 * pow128((s.len() - 1) as nat),
        ;
    }
}

/// Adding a group `x` at weight `w` to a value below `w`, modulo `w * q`,
/// keeps the value and the part of `x` below `q`.
proof fn lemma_add_group_mod(acc: nat, x: nat, w: nat, q: nat)
    requires
        acc < w,
        q > 0,
    ensures
        (acc + x * w) % (w * q) == acc + (x % q) * w,
{
    let hi = x / q;
    let lo = x % q;
    let kept = acc + lo * w;
    assert(x == q * hi + lo) by {
        lemma_fundamental_div_mod(x as int, q as int);
    }
    assert(acc + x * w == hi * (w * q) + kept) by (nonlinear_arith)
        requires
            x == q * hi + lo,
            kept == acc + lo * w,
    ;
    assert(kept < w * q) by (nonlinear_arith)
        requires
            kept == acc + lo * w,
            acc < w,
            lo < q,
    ;
    lemma_fundamental_div_mod_converse((acc + x * w) as int, (w * q) as int, hi as int, kept as int);
}

/// One step of a 64-bit reader that keeps all of the group: or-ing `x`,
/// shifted to `s`, into a value below two to the `s` adds `x` at that weight.
proof fn lemma_step_64(acc: u64, x: u64, s: u64, w: u64)
    by (bit_vector)
    requires
        s <= 53,
        x < 128,
        w == 1u64 << s,
        acc < w,
    ensures
        (acc | (x << s)) == acc + x * w,
        (1u64 << ((s + 7) as u64)) == 128 * w,
{
}

/// The last step of a 64-bit reader, at shift 60: only the low four bits of
/// the group fit.
proof fn lemma_last_step_64(acc: u64, x: u64, w: u64)
    by (bit_vector)
    requires
        x < 128,
        w == 1u64 << 60u64,
        acc < w,
    ensures
        (acc | (x << 60u64)) == acc + (x % 16) * w,
        w == 0x1000_0000_0000_0000,
{
}

/// One step of a 128-bit reader that keeps all of the group.
proof fn lemma_step_128(acc: u128, x: u128, s: u128, w: u128)
    by (bit_vector)
    requires
        s <= 116,
        x < 128,
        w == 1u128 << s,
        acc < w,
    ensures
        (acc | (x << s)) == acc + x * w,
        (1u128 << ((s + 7) as u128)) == 128 * w,
{
}

/// The last step of a 128-bit reader, at shift 123: only the low five bits of
/// the group fit.
proof fn lemma_last_step_128(acc: u128, x: u128, w: u128)
    by (bit_vector)
    requires
        x < 128,
        w == 1u128 << 123u128,
        acc < w,
    ensures
        (acc | (x << 123u128)) == acc + (x % 32) * w,
        w == 0x0800_0000_0000_0000_0000_0000_0000_0000,
{
}

/// What a tag byte and a continuation byte hold, in arithmetic.
proof fn lemma_byte_fields(b: u8)
    by (bit_vector)
    ensures
        (b & 0x80 == 0) <==> b < 128,
        b >> 3 == b / 8,
        (b & 0x7f) >> 3 == (b % 128) / 8,
        b & 0x7f == b % 128,
{
}

/// Reads a 64-bit varint, given its tag byte and the data after it. Returns
/// the value and how many bytes of `data` it took.
///
/// At most nine continuation bytes are accepted; a tenth is an overflow. Bits
/// of the ninth that do not fit in 64 bits are dropped.
pub fn read_varint(tagbyte: u8, data: &[u8]) -> (r: Result<(u64, usize), Error>)
    ensures
        r matches Ok((value, used)) ==> varint_span(tagbyte, data@, 9) == Ok::<nat, Error>(
            used as nat,
        ) && value == varint_value(tagbyte, data@) % modulus_64(),
        r matches Err(e) ==> varint_span(tagbyte, data@, 9) == Err::<nat, Error>(e),
        tagbyte >= 128 && continued(data@) >= 9 && data@.len() > 9 ==> r == Err::<
            (u64, usize),
            Error,
        >(Error::ValueOverflow),
{
    proof {
        lemma_byte_fields(tagbyte);
    }
    if tagbyte & 0x80 == 0 {
        let value = tagbyte >> 3;
        assert((value as nat) % modulus_64() == value);
        return Ok((value as u64, 0));
    }
    let mut value: u64 = ((tagbyte & 0x7f) >> 3) as u64;
    let mut shift: u64 = 4;
    let ghost mut w: u64 = 16;
    let ghost nibble: nat = ((tagbyte % 128) / 8) as nat;
    let mut i: usize = 0;
    assert(1u64 << 4u64 == 16) by (bit_vector);
    assert(data@.take(0) =~= Seq::<u8>::empty());
    while i < data.len()
        invariant
            tagbyte >= 128,
            nibble == ((tagbyte % 128) / 8) as nat,
            i <= data.len(),
            i <= 9,
            shift == 4 + 7 * i,
            forall|j: int| 0 <= j < i ==> data@[j] >= 128,
            i <= 8 ==> w == 1u64 << shift && w == 16 * pow128(i as nat) && value < w && value
                == nibble + 16 * groups(data@.take(i as int)),
        decreases data.len() - i,
    {
        if shift >= 64 {
            proof {
                lemma_continued(data@, i as int);
            }
            return Err(Error::ValueOverflow);
        }
        let b = data[i];
        proof {
            lemma_byte_fields(b);
            lemma_groups_push(data@.take(i as int), b);
            assert(data@.take(i as int).push(b) =~= data@.take(i + 1));
        }
        let ghost acc = value;
        if b & 0x80 == 0 {
            value |= (b as u64) << shift;
            proof {
                lemma_continued(data@, i as int);
                let total = nibble + 16 * groups(data@.take(i + 1));
                assert(total == acc + b * w) by (nonlinear_arith)
                    requires
                        total == nibble + 16 * groups(data@.take(i + 1)),
                        groups(data@.take(i + 1)) == groups(data@.take(i as int)) + (b % 128)
                            * pow128(i as nat),
                        acc == nibble + 16 * groups(data@.take(i as int)),
                        w == 16 * pow128(i as nat),
                        b % 128 == b,
                ;
                if i < 8 {
                    lemma_step_64(acc, b as u64, shift, w);
                    assert(acc + b * w < 128 * w) by (nonlinear_arith)
                        requires
                            acc < w,
                            b < 128,
                    ;
                    assert(total % modulus_64() == total);
                } else {
                    lemma_last_step_64(acc, b as u64, w);
                    lemma_add_group_mod(acc as nat, b as nat, w as nat, 16);
                }
            }
            return Ok((value, i + 1));
        }
        value |= ((b & 0x7f) as u64) << shift;
        proof {
            if i < 8 {
                let x = (b & 0x7f) as u64;
                lemma_step_64(acc, x, shift, w);
                assert(acc + x * w < 128 * w) by (nonlinear_arith)
                    requires
                        acc < w,
                        x < 128,
                ;
                assert(acc + x * w == nibble + 16 * groups(data@.take(i + 1))) by (nonlinear_arith)
                    requires
                        groups(data@.take(i + 1)) == groups(data@.take(i as int)) + (b % 128)
                            * pow128(i as nat),
                        acc == nibble + 16 * groups(data@.take(i as int)),
                        w == 16 * pow128(i as nat),
                        b % 128 == x,
                ;
                w = (128 * w) as u64;
            }
        }
        shift += 7;
        i += 1;
    }
    proof {
        lemma_continued(data@, i as int);
    }
    Err(Error::UnexpectedEndOfInput)
}

/// Finds how many bytes of `data` belong to the varint that `tagbyte` starts,
/// without reading its value. At most eighteen continuation bytes are
/// accepted, the length of a 128-bit varint.
pub fn skip_varint(tagbyte: u8, data: &[u8]) -> (r: Result<usize, Error>)
    ensures
        r matches Ok(used) ==> varint_span(tagbyte, data@, 18) == Ok::<nat, Error>(used as nat),
        r matches Err(e) ==> varint_span(tagbyte, data@, 18) == Err::<nat, Error>(e),
{
    proof {
        lemma_byte_fields(tagbyte);
    }
    if tagbyte & 0x80 == 0 {
        return Ok(0);
    }
    let mut i: usize = 0;
    while i < data.len()
        invariant
            tagbyte >= 128,
            i <= data.len(),
            i <= 18,
            forall|j: int| 0 <= j < i ==> data@[j] >= 128,
        decreases data.len() - i,
    {
        proof {
            lemma_continued(data@, i as int);
        }
        if i == 18 {
            return Err(Error::ValueOverflow);
        }
        let b = data[i];
        proof {
            lemma_byte_fields(b);
        }
        if b & 0x80 == 0 {
            return Ok(i + 1);
        }
        i += 1;
    }
    proof {
        lemma_continued(data@, i as int);
    }
    Err(Error::UnexpectedEndOfInput)
}

/// Reads a 128-bit varint, given its tag byte and the data after it. Returns
/// the value and how many bytes of `data` it took.
///
/// At most eighteen continuation bytes are accepted; a nineteenth is an
/// overflow. Bits of the eighteenth that do not fit in 128 bits are dropped.
pub fn read_varint_128(tagbyte: u8, data: &[u8]) -> (r: Result<(u128, usize), Error>)
    ensures
        r matches Ok((value, used)) ==> varint_span(tagbyte, data@, 18) == Ok::<nat, Error>(
            used as nat,
        ) && value == varint_value(tagbyte, data@) % modulus_128(),
        r matches Err(e) ==> varint_span(tagbyte, data@, 18) == Err::<nat, Error>(e),
        tagbyte >= 128 && continued(data@) >= 18 && data@.len() > 18 ==> r == Err::<
            (u128, usize),
            Error,
        >(Error::ValueOverflow),
{
    proof {
        lemma_byte_fields(tagbyte);
    }
    if tagbyte & 0x80 == 0 {
        let value = tagbyte >> 3;
        proof {
            lemma_small_mod(value as nat, modulus_128());
        }
        return Ok((value as u128, 0));
    }
    let mut value: u128 = ((tagbyte & 0x7f) >> 3) as u128;
    let mut shift: u128 = 4;
    let ghost mut w: u128 = 16;
    let ghost nibble: nat = ((tagbyte % 128) / 8) as nat;
    let mut i: usize = 0;
    assert(1u128 << 4u128 == 16) by (bit_vector);
    assert(data@.take(0) =~= Seq::<u8>::empty());
    while i < data.len()
        invariant
            tagbyte >= 128,
            nibble == ((tagbyte % 128) / 8) as nat,
            i <= data.len(),
            i <= 18,
            shift == 4 + 7 * i,
            forall|j: int| 0 <= j < i ==> data@[j] >= 128,
            i <= 17 ==> w == 1u128 << shift && w == 16 * pow128(i as nat) && value < w && value
                == nibble + 16 * groups(data@.take(i as int)),
        decreases data.len() - i,
    {
        if shift >= 128 {
            proof {
                lemma_continued(data@, i as int);
            }
            return Err(Error::ValueOverflow);
        }
        let b = data[i];
        proof {
            lemma_byte_fields(b);
            lemma_groups_push(data@.take(i as int), b);
            assert(data@.take(i as int).push(b) =~= data@.take(i + 1));
        }
        let ghost acc = value;
        if b & 0x80 == 0 {
            value |= (b as u128) << shift;
            proof {
                lemma_continued(data@, i as int);
                let total = nibble + 16 * groups(data@.take(i + 1));
                assert(total == acc + b * w) by (nonlinear_arith)
                    requires
                        total == nibble + 16 * groups(data@.take(i + 1)),
                        groups(data@.take(i + 1)) == groups(data@.take(i as int)) + (b % 128)
                            * pow128(i as nat),
                        acc == nibble + 16 * groups(data@.take(i as int)),
                        w == 16 * pow128(i as nat),
                        b % 128 == b,
                ;
                if i < 17 {
                    lemma_step_128(acc, b as u128, shift, w);
                    assert(acc + b * w < 128 * w) by (nonlinear_arith)
                        requires
                            acc < w,
                            b < 128,
                    ;
                    lemma_small_mod(total, modulus_128());
                } else {
                    lemma_last_step_128(acc, b as u128, w);
                    lemma_add_group_mod(acc as nat, b as nat, w as nat, 32);
                }
            }
            return Ok((value, i + 1));
        }
        value |= ((b & 0x7f) as u128) << shift;
        proof {
            if i < 17 {
                let x = (b & 0x7f) as u128;
                lemma_step_128(acc, x, shift, w);
                assert(acc + x * w < 128 * w) by (nonlinear_arith)
                    requires
                        acc < w,
                        x < 128,
                ;
                assert(acc + x * w == nibble + 16 * groups(data@.take(i + 1))) by (nonlinear_arith)
                    requires
                        groups(data@.take(i + 1)) == groups(data@.take(i as int)) + (b % 128)
                            * pow128(i as nat),
                        acc == nibble + 16 * groups(data@.take(i as int)),
                        w == 16 * pow128(i as nat),
                        b % 128 == x,
                ;
                w = (128 * w) as u128;
            }
        }
        shift += 7;
        i += 1;
    }
    proof {
        lemma_continued(data@, i as int);
    }
    Err(Error::UnexpectedEndOfInput)
}

/// The number that `bytes` spell, least significant byte first.
pub open spec fn le_value(bytes: Seq<u8>) -> nat
    decreases bytes.len(),
{
    if bytes.len() == 0 {
        0
    } else {
        bytes[0] as nat + 256 * le_value(bytes.drop_first())
    }
}

/// The `count` low bytes of `value`, least significant byte first.
pub open spec fn le_bytes(value: nat, count: nat) -> Seq<u8>
    decreases count,
{
    if count == 0 {
        Seq::<u8>::empty()
    } else {
        seq![(value % 256) as u8] + le_bytes(value / 256, (count - 1) as nat)
    }
}

/// The signed integer that the unsigned `n` stands for in two's complement,
/// where `modulus` is two to the number of bits.
pub open spec fn as_signed(n: nat, modulus: nat) -> int {
    if 2 * n >= modulus {
        n - modulus
    } else {
        n as int
    }
}

/// `le_value` of four and of eight bytes, written out.
pub proof fn lemma_le_value(bytes: Seq<u8>)
    ensures
        bytes.len() == 4 ==> le_value(bytes) == bytes[0] + 0x100 * bytes[1] + 0x1_0000 * bytes[2]
            + 0x100_0000 * bytes[3],
        bytes.len() == 8 ==> le_value(bytes) == bytes[0] + 0x100 * bytes[1] + 0x1_0000 * bytes[2]
            + 0x100_0000 * bytes[3] + 0x1_0000_0000 * bytes[4] + 0x100_0000_0000 * bytes[5]
            + 0x1_0000_0000_0000 * bytes[6] + 0x100_0000_0000_0000 * bytes[7],
{
    reveal_with_fuel(le_value, 9);
    if bytes.len() == 4 || bytes.len() == 8 {
        let b1 = bytes.drop_first();
        let b2 = b1.drop_first();
        let b3 = b2.drop_first();
        let b4 = b3.drop_first();
        assert(b1[0] == bytes[1] && b2[0] == bytes[2] && b3[0] == bytes[3]);
        if bytes.len() == 8 {
            let b5 = b4.drop_first();
            let b6 = b5.drop_first();
            let b7 = b6.drop_first();
            let b8 = b7.drop_first();
            assert(b4[0] == bytes[4] && b5[0] == bytes[5] && b6[0] == bytes[6] && b7[0]
                == bytes[7]);
        }
    }
}

/// Writing a number in `count` little-endian bytes and reading them back
/// gives the number, if it fits.
pub proof fn lemma_le_round_trip(value: nat, count: nat)
    ensures
        le_bytes(value, count).len() == count,
        le_value(le_bytes(value, count)) == value % pow256(count),
    decreases count,
{
    if count > 0 {
        let b = le_bytes(value, count);
        lemma_le_round_trip(value / 256, (count - 1) as nat);
        assert(b.drop_first() =~= le_bytes(value / 256, (count - 1) as nat));
        let m = pow256((count - 1) as nat);
        lemma_pow256_positive((count - 1) as nat);
        let q = value / 256;
        let r = value % 256;
        let hi = q / m;
        let lo = q % m;
        assert(q == m * hi + lo) by {
            lemma_fundamental_div_mod(q as int, m as int);
        }
        assert(value == hi * (256 * m) + (r + 256 * lo)) by (nonlinear_arith)
            requires
                value == 256 * q + r,
                q == m * hi + lo,
        ;
        lemma_fundamental_div_mod_converse(
            value as int,
            (256 * m) as int,
            hi as int,
            (r + 256 * lo) as int,
        );
    }
}

/// 256 to the `i`: the number of values that `i` bytes can hold.
pub open spec fn pow256(i: nat) -> nat
    decreases i,
{
    if i == 0 {
        1
    } else {
        256 * pow256((i - 1) as nat)
    }
}

proof fn lemma_pow256_positive(i: nat)
    ensures
        pow256(i) > 0,
    decreases i,
{
    if i > 0 {
        lemma_pow256_positive((i - 1) as nat);
    }
}

/// The 32-bit number that four bytes spell, least significant byte first.
pub fn u32_from_le(bytes: [u8; 4]) -> (value: u32)
    ensures
        value == le_value(bytes@),
{
    let b0 = bytes[0] as u32;
    let b1 = bytes[1] as u32;
    let b2 = bytes[2] as u32;
    let b3 = bytes[3] as u32;
    proof {
        lemma_le_value(bytes@);
    }
    assert(b0 | (b1 << 8) | (b2 << 16) | (b3 << 24) == b0 + 0x100 * b1 + 0x1_0000 * b2 + 0x100_0000
        * b3) by (bit_vector)
        requires
            b0 < 256,
            b1 < 256,
            b2 < 256,
            b3 < 256,
    ;
    b0 | (b1 << 8) | (b2 << 16) | (b3 << 24)
}

/// The 64-bit number that eight bytes spell, least significant byte first.
pub fn u64_from_le(bytes: [u8; 8]) -> (value: u64)
    ensures
        value == le_value(bytes@),
{
    let b0 = bytes[0] as u64;
    let b1 = bytes[1] as u64;
    let b2 = bytes[2] as u64;
    let b3 = bytes[3] as u64;
    let b4 = bytes[4] as u64;
    let b5 = bytes[5] as u64;
    let b6 = bytes[6] as u64;
    let b7 = bytes[7] as u64;
    proof {
        lemma_le_value(bytes@);
    }
    assert(b0 | (b1 << 8) | (b2 << 16) | (b3 << 24) | (b4 << 32) | (b5 << 40) | (b6 << 48) | (b7
        << 56) == b0 + 0x100 * b1 + 0x1_0000 * b2 + 0x100_0000 * b3 + 0x1_0000_0000 * b4
        + 0x100_0000_0000 * b5 + 0x1_0000_0000_0000 * b6 + 0x100_0000_0000_0000 * b7)
        by (bit_vector)
        requires
            b0 < 256,
            b1 < 256,
            b2 < 256,
            b3 < 256,
            b4 < 256,
            b5 < 256,
            b6 < 256,
            b7 < 256,
    ;
    b0 | (b1 << 8) | (b2 << 16) | (b3 << 24) | (b4 << 32) | (b5 << 40) | (b6 << 48) | (b7 << 56)
}

/// Reads 32 bits as a signed integer in two's complement.
pub fn i32_from_bits(bits: u32) -> (value: i32)
    ensures
        value == as_signed(bits as nat, 0x1_0000_0000),
{
    assert(bits as i32 == (if bits >= 0x8000_0000u32 {
        bits - 0x1_0000_0000
    } else {
        bits as int
    })) by (bit_vector);
    #[verifier::truncate]
    (bits as i32)
}

/// Reads 64 bits as a signed integer in two's complement.
pub fn i64_from_bits(bits: u64) -> (value: i64)
    ensures
        value == as_signed(bits as nat, modulus_64()),
{
    assert(bits as i64 == (if bits >= 0x8000_0000_0000_0000u64 {
        bits - 0x1_0000_0000_0000_0000
    } else {
        bits as int
    })) by (bit_vector);
    #[verifier::truncate]
    (bits as i64)
}

/// The zig-zag image of a signed integer: 0, -1, 1, -2, 2, ... map to
/// 0, 1, 2, 3, 4, ..., so that small magnitudes get small codes.
pub open spec fn zigzag(v: int) -> nat {
    if v >= 0 {
        (2 * v) as nat
    } else {
        (-2 * v - 1) as nat
    }
}

/// The signed integer whose zig-zag image is `n`.
pub open spec fn unzigzag(n: nat) -> int {
    if n % 2 == 0 {
        (n / 2) as int
    } else {
        -(((n + 1) / 2) as int)
    }
}

/// Zig-zag encodes a 64-bit signed integer.
pub fn zigzag_encode(value: i64) -> (encoded: u64)
    ensures
        encoded == zigzag(value as int),
{
    assert(((value << 1) ^ (value >> 63)) as u64 == (if value >= 0 {
        2 * value
    } else {
        -2 * value - 1
    })) by (bit_vector);
    let encoded = (value << 1) ^ (value >> 63);
    encoded as u64
}

/// Undoes `zigzag_encode`.
pub fn zigzag_decode(encoded: u64) -> (value: i64)
    ensures
        value == unzigzag(encoded as nat),
{
    assert(encoded >> 1 <= 0x7fff_ffff_ffff_ffff) by (bit_vector);
    assert(encoded & 1 <= 1) by (bit_vector);
    let half: i64 = (encoded >> 1) as i64;
    let sign: i64 = -((encoded & 1) as i64);
    assert(half ^ sign == (if encoded % 2 == 0 {
        (encoded / 2) as int
    } else {
        -(((encoded + 1) / 2) as int)
    })) by (bit_vector)
        requires
            half == (encoded >> 1) as i64,
            encoded & 1 == 0 ==> sign == 0,
            encoded & 1 == 1 ==> sign == -1,
            encoded & 1 <= 1,
    ;
    half ^ sign
}

/// Zig-zag encodes a 128-bit signed integer.
pub fn zigzag_encode_128(value: i128) -> (encoded: u128)
    ensures
        encoded == zigzag(value as int),
{
    assert(((value << 1) ^ (value >> 127)) as u128 == (if value >= 0 {
        2 * value
    } else {
        -2 * value - 1
    })) by (bit_vector);
    let encoded = (value << 1) ^ (value >> 127);
    encoded as u128
}

/// Undoes `zigzag_encode_128`.
pub fn zigzag_decode_128(encoded: u128) -> (value: i128)
    ensures
        value == unzigzag(encoded as nat),
{
    assert(encoded >> 1 <= 0x7fff_ffff_ffff_ffff_ffff_ffff_ffff_ffff) by (bit_vector);
    assert(encoded & 1 <= 1) by (bit_vector);
    let half: i128 = (encoded >> 1) as i128;
    let sign: i128 = -((encoded & 1) as i128);
    assert(half ^ sign == (if encoded % 2 == 0 {
        (encoded / 2) as int
    } else {
        -(((encoded + 1) / 2) as int)
    })) by (bit_vector)
        requires
            half == (encoded >> 1) as i128,
            encoded & 1 == 0 ==> sign == 0,
            encoded & 1 == 1 ==> sign == -1,
            encoded & 1 <= 1,
    ;
    half ^ sign
}

/// Zig-zag is a bijection between the integers and the naturals: decoding
/// undoes encoding, and encoding undoes decoding.
pub proof fn lemma_zigzag_inverse(v: int, n: nat)
    ensures
        unzigzag(zigzag(v)) == v,
        zigzag(unzigzag(n)) == n,
{
}

/// Zig-zag keeps magnitudes small: a signed integer of `bits` bits has an
/// image below two to the `bits`, here for 8, 16, 32, 64 and 128 bits.
pub proof fn lemma_zigzag_range(v: int)
    ensures
        i8::MIN <= v <= i8::MAX <==> zigzag(v) <= u8::MAX,
        i16::MIN <= v <= i16::MAX <==> zigzag(v) <= u16::MAX,
        i32::MIN <= v <= i32::MAX <==> zigzag(v) <= u32::MAX,
        i64::MIN <= v <= i64::MAX <==> zigzag(v) <= u64::MAX,
        i128::MIN <= v <= i128::MAX <==> zigzag(v) <= u128::MAX,
{
}

/// The continuation bytes of `rest`, followed by anything, stop at their own
/// last byte and spell `rest`.
pub proof fn lemma_tail_bytes(rest: nat, after: Seq<u8>)
    ensures
        tail_bytes(rest).len() >= 1,
        continued(tail_bytes(rest) + after) == tail_bytes(rest).len() - 1,
        groups(tail_bytes(rest)) == rest,
    decreases rest,
{
    let t = tail_bytes(rest);
    if rest < 128 {
        assert(t =~= seq![rest as u8]);
        assert((t + after)[0] == rest as u8);
        assert(t.drop_first() =~= Seq::<u8>::empty());
        assert(groups(t.drop_first()) == 0);
    } else {
        let inner = tail_bytes(rest / 128);
        lemma_tail_bytes(rest / 128, after);
        assert(t =~= seq![(128 + rest % 128) as u8] + inner);
        assert((t + after)[0] == (128 + rest % 128) as u8);
        assert((t + after).drop_first() =~= inner + after);
        assert(t.drop_first() =~= inner);
        assert(t[0] % 128 == rest % 128);
    }
}

/// A number below 128 to the `n` has at most `n` continuation bytes.
pub proof fn lemma_tail_len(rest: nat, n: nat)
    requires
        n >= 1,
        rest < pow128(n),
    ensures
        tail_bytes(rest).len() <= n,
    decreases n,
{
    if rest >= 128 {
        assert(pow128(1) == 128) by {
            reveal_with_fuel(pow128, 2);
        }
        assert(n >= 2);
        assert(rest / 128 < pow128((n - 1) as nat));
        lemma_tail_len(rest / 128, (n - 1) as nat);
    }
}

/// What a reader finds in the tag byte that a writer made.
pub proof fn lemma_tag_byte(wt: WireType, value: nat)
    ensures
        spec_wiretype(tag_byte(wt, value)) == wt,
        tag_byte(wt, value) < 128 <==> value < 16,
        value < 16 ==> tag_byte(wt, value) / 8 == value,
        value >= 16 ==> (tag_byte(wt, value) % 128) / 8 == value % 16,
{
}

/// Reading undoes writing: after the bytes of a varint, whatever follows,
/// a reader finds the wire type, takes exactly the varint's bytes and gets
/// the value back. A 64-bit reader does so for every 64-bit value, a 128-bit
/// reader and the skip routine for every 128-bit value.
pub proof fn lemma_varint_round_trip(wt: WireType, value: nat, after: Seq<u8>)
    ensures
        ({
            let bytes = varint_bytes(wt, value);
            let data = bytes.skip(1) + after;
            &&& bytes.len() >= 1
            &&& spec_wiretype(bytes[0]) == wt
            &&& varint_value(bytes[0], data) == value
            &&& value <= u64::MAX ==> bytes.len() <= 10 && varint_span(bytes[0], data, 9) == Ok::<
                nat,
                Error,
            >((bytes.len() - 1) as nat)
            &&& value <= u128::MAX ==> bytes.len() <= 19 && varint_span(bytes[0], data, 18) == Ok::<
                nat,
                Error,
            >((bytes.len() - 1) as nat)
        }),
{
    let bytes = varint_bytes(wt, value);
    let data = bytes.skip(1) + after;
    lemma_tag_byte(wt, value);
    if value >= 16 {
        let t = tail_bytes(value / 16);
        lemma_tail_bytes(value / 16, after);
        assert(bytes.skip(1) =~= t);
        assert(data.take((continued(data) + 1) as int) =~= t);
        assert(pow128(9) == 0x8000_0000_0000_0000) by {
            reveal_with_fuel(pow128, 10);
        }
        assert(pow128(18) == 0x4000_0000_0000_0000_0000_0000_0000_0000) by {
            reveal_with_fuel(pow128, 19);
        }
        if value <= u64::MAX {
            lemma_tail_len(value / 16, 9);
        }
        if value <= u128::MAX {
            lemma_tail_len(value / 16, 18);
        }
    }
}

} // verus!
