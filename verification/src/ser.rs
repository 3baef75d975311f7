//! The encoder: one method for each construct of the data model, each of
//! which appends that construct's bytes to a sink in memory.
//!
//! A primitive is written whole. A composite is begun with its header; the
//! caller then writes the children, each through `Serializer::element`, and
//! calls `Serializer::end`. What each method appends is a function of its
//! arguments alone, so equal values always give equal bytes.

use crate::error::Error;
use crate::wire::{
    le_bytes, varint_bytes, write_varint, write_varint_128, zigzag, zigzag_encode,
    zigzag_encode_128, WireType,
};
use vstd::prelude::*;
use vstd::string::StringSliceAdditionalSpecFns;

verus! {

/// The bytes of an unsigned integer of any width: an `Int` varint.
pub open spec fn encode_unsigned(value: nat) -> Seq<u8> {
    varint_bytes(WireType::Int, value)
}

/// The bytes of a signed integer of any width: the `Int` varint of its
/// zig-zag image.
pub open spec fn encode_signed(value: int) -> Seq<u8> {
    varint_bytes(WireType::Int, zigzag(value))
}

/// The bytes of a `bool`: the integer 0 or 1.
pub open spec fn encode_bool(value: bool) -> Seq<u8> {
    encode_unsigned(
        if value {
            1
        } else {
            0
        },
    )
}

/// The bytes of a unit: those of `false`, a single zero byte.
pub open spec fn encode_unit() -> Seq<u8> {
    encode_bool(false)
}

/// The bytes of a `char`: its code point as an unsigned integer.
pub open spec fn encode_char(value: char) -> Seq<u8> {
    encode_unsigned(value as nat)
}

/// The bytes of a 32-bit fixed-width value: the `Fixed32` tag, then four
/// little-endian bytes.
pub open spec fn encode_fixed32(bits: u32) -> Seq<u8> {
    seq![WireType::Fixed32.code()] + le_bytes(bits as nat, 4)
}

/// The bytes of a 64-bit fixed-width value: the `Fixed64` tag, then eight
/// little-endian bytes.
pub open spec fn encode_fixed64(bits: u64) -> Seq<u8> {
    seq![WireType::Fixed64.code()] + le_bytes(bits as nat, 8)
}

/// The bytes of a byte string: a `Bytes` varint with the count, then the
/// bytes themselves.
pub open spec fn encode_bytes(bytes: Seq<u8>) -> Seq<u8> {
    varint_bytes(WireType::Bytes, bytes.len()) + bytes
}

/// The header of a record, sequence or map: a `Sequence` varint with the
/// number of values that follow.
pub open spec fn sequence_header(len: nat) -> Seq<u8> {
    varint_bytes(WireType::Sequence, len)
}

/// The header of an enum variant or an option: a `Variant` varint with the
/// discriminant. One value follows.
pub open spec fn variant_header(index: u32) -> Seq<u8> {
    varint_bytes(WireType::Variant, index as nat)
}

/// An encoder that appends to a byte vector.
pub struct Serializer<'a> {
    /// The sink.
    pub writer: &'a mut Vec<u8>,
}

impl<'a> Serializer<'a> {
    /// An encoder that appends to `writer`.
    pub fn new(writer: &'a mut Vec<u8>) -> (s: Self)
        ensures
            s.writer@ == old(writer)@,
            final(s.writer)@ == final(writer)@,
    {
        Serializer { writer }
    }

    /// Writes an `i8`.
    pub fn serialize_i8(self, v: i8) -> (r: Result<(), Error>)
        ensures
            r is Ok,
            final(self.writer)@ == old(self.writer)@ + encode_signed(v as int),
    {
        self.serialize_i64(v as i64)
    }

    /// Writes an `i16`.
    pub fn serialize_i16(self, v: i16) -> (r: Result<(), Error>)
        ensures
            r is Ok,
            final(self.writer)@ == old(self.writer)@ + encode_signed(v as int),
    {
        self.serialize_i64(v as i64)
    }

    /// Writes an `i32`.
    pub fn serialize_i32(self, v: i32) -> (r: Result<(), Error>)
        ensures
            r is Ok,
            final(self.writer)@ == old(self.writer)@ + encode_signed(v as int),
    {
        self.serialize_i64(v as i64)
    }

    /// Writes an `i64`.
    pub fn serialize_i64(self, v: i64) -> (r: Result<(), Error>)
        ensures
            r is Ok,
            final(self.writer)@ == old(self.writer)@ + encode_signed(v as int),
    {
        self.serialize_u64(zigzag_encode(v))
    }

    /// Writes a `u8`.
    pub fn serialize_u8(self, v: u8) -> (r: Result<(), Error>)
        ensures
            r is Ok,
            final(self.writer)@ == old(self.writer)@ + encode_unsigned(v as nat),
    {
        self.serialize_u64(v as u64)
    }

    /// Writes a `u16`.
    pub fn serialize_u16(self, v: u16) -> (r: Result<(), Error>)
        ensures
            r is Ok,
            final(self.writer)@ == old(self.writer)@ + encode_unsigned(v as nat),
    {
        self.serialize_u64(v as u64)
    }

    /// Writes a `u32`.
    pub fn serialize_u32(self, v: u32) -> (r: Result<(), Error>)
        ensures
            r is Ok,
            final(self.writer)@ == old(self.writer)@ + encode_unsigned(v as nat),
    {
        self.serialize_u64(v as u64)
    }

    /// Writes a `u64`.
    pub fn serialize_u64(self, v: u64) -> (r: Result<(), Error>)
        ensures
            r is Ok,
            final(self.writer)@ == old(self.writer)@ + encode_unsigned(v as nat),
    {
        write_varint(self.writer, WireType::Int, v)
    }

    /// Writes a `bool`.
    pub fn serialize_bool(self, v: bool) -> (r: Result<(), Error>)
        ensures
            r is Ok,
            final(self.writer)@ == old(self.writer)@ + encode_bool(v),
    {
        self.serialize_u8(
            if v {
                1
            } else {
                0
            },
        )
    }

    /// Writes an `i128`.
    pub fn serialize_i128(self, v: i128) -> (r: Result<(), Error>)
        ensures
            r is Ok,
            final(self.writer)@ == old(self.writer)@ + encode_signed(v as int),
    {
        self.serialize_u128(zigzag_encode_128(v))
    }

    /// Writes a `u128`.
    pub fn serialize_u128(self, v: u128) -> (r: Result<(), Error>)
        ensures
            r is Ok,
            final(self.writer)@ == old(self.writer)@ + encode_unsigned(v as nat),
    {
        write_varint_128(self.writer, WireType::Int, v)
    }

    /// Writes a `char`.
    pub fn serialize_char(self, v: char) -> (r: Result<(), Error>)
        ensures
            r is Ok,
            final(self.writer)@ == old(self.writer)@ + encode_char(v),
    {
        self.serialize_u32(v as u32)
    }

    /// Writes a 32-bit fixed-width value, given as its bits: the form that a
    /// single-precision floating-point number takes on the wire.
    pub fn serialize_fixed32(self, bits: u32) -> (r: Result<(), Error>)
        ensures
            r is Ok,
            final(self.writer)@ == old(self.writer)@ + encode_fixed32(bits),
    {
        let ghost start = self.writer@;
        self.writer.push(WireType::Fixed32.as_u8());
        let mut rest: u32 = bits;
        let mut i: usize = 0;
        while i < 4
            invariant
                i <= 4,
                *final(self.writer) == *final(old(self.writer)),
                self.writer@ + le_bytes(rest as nat, (4 - i) as nat) == start + encode_fixed32(
                    bits,
                ),
            decreases 4 - i,
        {
            let ghost before = self.writer@;
            assert((rest & 0xff) == rest % 256 && (rest >> 8) == rest / 256) by (bit_vector);
            self.writer.push((rest & 0xff) as u8);
            assert(self.writer@ + le_bytes((rest / 256) as nat, (4 - i - 1) as nat) =~= before
                + le_bytes(rest as nat, (4 - i) as nat));
            rest = rest >> 8;
            i += 1;
        }
        assert(self.writer@ =~= self.writer@ + le_bytes(rest as nat, 0));
        Ok(())
    }

    /// Writes a 64-bit fixed-width value, given as its bits: the form that a
    /// double-precision floating-point number takes on the wire.
    pub fn serialize_fixed64(self, bits: u64) -> (r: Result<(), Error>)
        ensures
            r is Ok,
            final(self.writer)@ == old(self.writer)@ + encode_fixed64(bits),
    {
        let ghost start = self.writer@;
        self.writer.push(WireType::Fixed64.as_u8());
        let mut rest: u64 = bits;
        let mut i: usize = 0;
        while i < 8
            invariant
                i <= 8,
                *final(self.writer) == *final(old(self.writer)),
                self.writer@ + le_bytes(rest as nat, (8 - i) as nat) == start + encode_fixed64(
                    bits,
                ),
            decreases 8 - i,
        {
            let ghost before = self.writer@;
            assert((rest & 0xff) == rest % 256 && (rest >> 8) == rest / 256) by (bit_vector);
            self.writer.push((rest & 0xff) as u8);
            assert(self.writer@ + le_bytes((rest / 256) as nat, (8 - i - 1) as nat) =~= before
                + le_bytes(rest as nat, (8 - i) as nat));
            rest = rest >> 8;
            i += 1;
        }
        assert(self.writer@ =~= self.writer@ + le_bytes(rest as nat, 0));
        Ok(())
    }

    /// Writes a string: its UTF-8 bytes as a byte string.
    pub fn serialize_str(self, v: &str) -> (r: Result<(), Error>)
        ensures
            r is Ok,
            final(self.writer)@ == old(self.writer)@ + encode_bytes(v.spec_bytes()),
    {
        self.serialize_bytes(v.as_bytes())
    }

    /// Writes a byte string.
    pub fn serialize_bytes(self, v: &[u8]) -> (r: Result<(), Error>)
        ensures
            r is Ok,
            final(self.writer)@ == old(self.writer)@ + encode_bytes(v@),
    {
        let ghost start = self.writer@;
        let _ = write_varint(self.writer, WireType::Bytes, v.len() as u64);
        let ghost header = self.writer@;
        let mut i: usize = 0;
        while i < v.len()
            invariant
                i <= v.len(),
                *final(self.writer) == *final(old(self.writer)),
                self.writer@ == header + v@.take(i as int),
            decreases v.len() - i,
        {
            self.writer.push(v[i]);
            assert(v@.take(i + 1) =~= v@.take(i as int).push(v@[i as int]));
            i += 1;
        }
        assert(v@.take(v.len() as int) =~= v@);
        assert(self.writer@ =~= start + encode_bytes(v@));
        Ok(())
    }

    /// Writes an option without a value: variant 0 of two, with a unit in the
    /// value's place.
    pub fn serialize_none(self) -> (r: Result<(), Error>)
        ensures
            r is Ok,
            final(self.writer)@ == old(self.writer)@ + variant_header(0) + encode_unit(),
    {
        self.serialize_unit_variant(0)
    }

    /// Begins an option with a value: variant 1 of two. The caller writes the
    /// value next, through the encoder that comes back.
    pub fn serialize_some(self) -> (r: Result<Self, Error>)
        ensures
            r matches Ok(next) && next.writer@ == old(self.writer)@ + variant_header(1)
                && final(next.writer)@ == final(self.writer)@,
    {
        self.serialize_newtype_variant(1)
    }

    /// Writes a unit: the same single zero byte as `false`.
    pub fn serialize_unit(self) -> (r: Result<(), Error>)
        ensures
            r is Ok,
            final(self.writer)@ == old(self.writer)@ + encode_unit(),
    {
        self.serialize_bool(false)
    }

    /// Writes a unit struct, as a unit.
    pub fn serialize_unit_struct(self) -> (r: Result<(), Error>)
        ensures
            r is Ok,
            final(self.writer)@ == old(self.writer)@ + encode_unit(),
    {
        self.serialize_unit()
    }

    /// Writes a unit variant: the variant's header, with a unit in the
    /// value's place.
    pub fn serialize_unit_variant(self, variant_index: u32) -> (r: Result<(), Error>)
        ensures
            r is Ok,
            final(self.writer)@ == old(self.writer)@ + variant_header(variant_index)
                + encode_unit(),
    {
        let _ = write_varint(self.writer, WireType::Variant, variant_index as u64);
        self.serialize_unit()
    }

    /// Begins a newtype struct, which is written as the value it wraps:
    /// nothing is added. The caller writes the value next.
    pub fn serialize_newtype_struct(self) -> (r: Result<Self, Error>)
        ensures
            r matches Ok(next) && next.writer@ == old(self.writer)@ && final(next.writer)@
                == final(self.writer)@,
    {
        Ok(self)
    }

    /// Begins a newtype variant: the variant's header. The caller writes the
    /// value next.
    pub fn serialize_newtype_variant(self, variant_index: u32) -> (r: Result<Self, Error>)
        ensures
            r matches Ok(next) && next.writer@ == old(self.writer)@ + variant_header(
                variant_index,
            ) && final(next.writer)@ == final(self.writer)@,
    {
        let _ = write_varint(self.writer, WireType::Variant, variant_index as u64);
        Ok(self)
    }

    /// Begins a sequence of `len` elements. The length must be known.
    pub fn serialize_seq(self, len: Option<usize>) -> (r: Result<Self, Error>)
        requires
            len is Some,
        ensures
            r matches Ok(next) && next.writer@ == old(self.writer)@ + sequence_header(
                len->0 as nat,
            ) && final(next.writer)@ == final(self.writer)@,
    {
        let len = len.unwrap();
        self.serialize_tuple(len)
    }

    /// Begins a tuple of `len` elements.
    pub fn serialize_tuple(self, len: usize) -> (r: Result<Self, Error>)
        ensures
            r matches Ok(next) && next.writer@ == old(self.writer)@ + sequence_header(len as nat)
                && final(next.writer)@ == final(self.writer)@,
    {
        let _ = write_varint(self.writer, WireType::Sequence, len as u64);
        Ok(self)
    }

    /// Begins a map of `len` entries: a sequence of twice as many values,
    /// keys and values in turn. The length must be known.
    pub fn serialize_map(self, len: Option<usize>) -> (r: Result<Self, Error>)
        requires
            len is Some,
            2 * len->0 <= usize::MAX,
        ensures
            r matches Ok(next) && next.writer@ == old(self.writer)@ + sequence_header(
                (2 * len->0) as nat,
            ) && final(next.writer)@ == final(self.writer)@,
    {
        let len = len.unwrap();
        self.serialize_tuple(len * 2)
    }

    /// Begins a tuple struct of `len` fields, as a tuple.
    pub fn serialize_tuple_struct(self, len: usize) -> (r: Result<Self, Error>)
        ensures
            r matches Ok(next) && next.writer@ == old(self.writer)@ + sequence_header(len as nat)
                && final(next.writer)@ == final(self.writer)@,
    {
        self.serialize_tuple(len)
    }

    /// Begins a tuple variant of `len` fields: the variant's header, then a
    /// tuple in the value's place.
    pub fn serialize_tuple_variant(self, variant_index: u32, len: usize) -> (r: Result<
        Self,
        Error,
    >)
        ensures
            r matches Ok(next) && next.writer@ == old(self.writer)@ + variant_header(
                variant_index,
            ) + sequence_header(len as nat) && final(next.writer)@ == final(self.writer)@,
    {
        let _ = write_varint(self.writer, WireType::Variant, variant_index as u64);
        self.serialize_tuple(len)
    }

    /// Begins a struct of `len` fields, as a tuple.
    pub fn serialize_struct(self, len: usize) -> (r: Result<Self, Error>)
        ensures
            r matches Ok(next) && next.writer@ == old(self.writer)@ + sequence_header(len as nat)
                && final(next.writer)@ == final(self.writer)@,
    {
        self.serialize_tuple(len)
    }

    /// Begins a struct variant of `len` fields, as a tuple variant.
    pub fn serialize_struct_variant(self, variant_index: u32, len: usize) -> (r: Result<
        Self,
        Error,
    >)
        ensures
            r matches Ok(next) && next.writer@ == old(self.writer)@ + variant_header(
                variant_index,
            ) + sequence_header(len as nat) && final(next.writer)@ == final(self.writer)@,
    {
        self.serialize_tuple_variant(variant_index, len)
    }

    /// Whether the format is meant for people to read: it is not, so that
    /// numbers come in their natural widths.
    pub fn is_human_readable(&self) -> (r: bool)
        ensures
            !r,
    {
        false
    }

    /// An encoder for the next child of the composite that this encoder has
    /// begun: an element, a key, a value or a field. It appends to the same
    /// sink.
    pub fn element<'b>(&'b mut self) -> (inner: Serializer<'b>)
        ensures
            inner.writer@ == old(self).writer@,
            final(self).writer@ == final(inner.writer)@,
            final(final(self).writer)@ == final(old(self).writer)@,
    {
        Serializer { writer: &mut *self.writer }
    }

    /// Ends a composite. Nothing is written: the header said how many
    /// children there are.
    pub fn end(self) -> (r: Result<(), Error>)
        ensures
            r is Ok,
            final(self.writer)@ == old(self.writer)@,
    {
        Ok(())
    }
}

} // verus!
