//! The decoder: a cursor over an immutable byte slice.
//!
//! Every read advances the cursor. What a read returns and where it leaves
//! the cursor are both stated as a function of the bytes that were ahead of
//! the cursor, errors included: the view of a `Deserializer` is the input
//! that is still unread.

use crate::error::Error;
use crate::wire::{
    as_signed, i32_from_bits, i64_from_bits, le_value, modulus_128, modulus_64, read_varint,
    read_varint_128, read_wiretype, skip_varint, spec_wiretype, u32_from_le, u64_from_le,
    unzigzag, varint_span, varint_value, zigzag_decode, zigzag_decode_128, WireType,
};
use vstd::prelude::*;
use vstd::string::StringSliceAdditionalSpecFns;
use vstd::utf8::{char_u32_cast, is_scalar, valid_utf8};

verus! {

/// A reader over a byte slice.
pub struct Deserializer<'de> {
    input: &'de [u8],
}

impl<'de> View for Deserializer<'de> {
    type V = Seq<u8>;

    /// The input that is still unread.
    closed spec fn view(&self) -> Seq<u8> {
        self.input@
    }
}

/// Reading one byte: the first byte, or an error at the end of the input.
pub open spec fn spec_read_byte(input: Seq<u8>) -> (Result<u8, Error>, Seq<u8>) {
    if input.len() == 0 {
        (Err(Error::UnexpectedEndOfInput), input)
    } else {
        (Ok(input[0]), input.skip(1))
    }
}

/// Reading `n` bytes: the first `n`, or an error that leaves the cursor where
/// it was if fewer are left.
pub open spec fn spec_read(input: Seq<u8>, n: nat) -> (Result<Seq<u8>, Error>, Seq<u8>) {
    if n > input.len() {
        (Err(Error::UnexpectedEndOfInput), input)
    } else {
        (Ok(input.take(n as int)), input.skip(n as int))
    }
}

/// Reading the rest of a 64-bit varint whose tag byte was `tagbyte`. An error
/// leaves the cursor after the tag byte.
pub open spec fn spec_read_varint(tagbyte: u8, input: Seq<u8>) -> (Result<u64, Error>, Seq<u8>) {
    match varint_span(tagbyte, input, 9) {
        Ok(used) => (
            Ok((varint_value(tagbyte, input) % modulus_64()) as u64),
            input.skip(used as int),
        ),
        Err(e) => (Err(e), input),
    }
}

/// Reading the rest of a 128-bit varint whose tag byte was `tagbyte`. An
/// error leaves the cursor after the tag byte.
pub open spec fn spec_read_varint_128(tagbyte: u8, input: Seq<u8>) -> (
    Result<u128, Error>,
    Seq<u8>,
) {
    match varint_span(tagbyte, input, 18) {
        Ok(used) => (
            Ok((varint_value(tagbyte, input) % modulus_128()) as u128),
            input.skip(used as int),
        ),
        Err(e) => (Err(e), input),
    }
}

/// Skipping `pending` values, one after the other, without knowing their
/// types. Each value starts with a tag byte that says how it goes on:
///
/// - `Int`: the continuation bytes of its varint, eighteen at most;
/// - `Fixed32`, `Fixed64`: four or eight bytes;
/// - `Sequence`: a 64-bit varint count, then that many more values;
/// - `Bytes`: a 64-bit varint count, then that many bytes;
/// - `Variant`: a 64-bit varint discriminant, then one more value;
/// - a reserved code is an error.
///
/// The first error ends the walk and leaves the cursor where it was found.
pub open spec fn skip_items(input: Seq<u8>, pending: nat) -> (Result<(), Error>, Seq<u8>)
    decreases input.len(),
{
    if pending == 0 {
        (Ok(()), input)
    } else if input.len() == 0 {
        (Err(Error::UnexpectedEndOfInput), input)
    } else {
        let tagbyte = input[0];
        let rest = input.skip(1);
        match spec_wiretype(tagbyte) {
            WireType::Int => match varint_span(tagbyte, rest, 18) {
                Ok(used) => skip_items(rest.skip(used as int), (pending - 1) as nat),
                Err(e) => (Err(e), rest),
            },
            WireType::Fixed32 => if rest.len() < 4 {
                (Err(Error::UnexpectedEndOfInput), rest)
            } else {
                skip_items(rest.skip(4), (pending - 1) as nat)
            },
            WireType::Fixed64 => if rest.len() < 8 {
                (Err(Error::UnexpectedEndOfInput), rest)
            } else {
                skip_items(rest.skip(8), (pending - 1) as nat)
            },
            WireType::Sequence => match spec_read_varint(tagbyte, rest) {
                (Ok(count), body) => skip_items(body, (pending - 1 + count) as nat),
                (Err(e), at) => (Err(e), at),
            },
            WireType::Bytes => match spec_read_varint(tagbyte, rest) {
                (Ok(count), body) => if count > body.len() {
                    (Err(Error::UnexpectedEndOfInput), body)
                } else {
                    skip_items(body.skip(count as int), (pending - 1) as nat)
                },
                (Err(e), at) => (Err(e), at),
            },
            WireType::Variant => match spec_read_varint(tagbyte, rest) {
                (Ok(_), body) => skip_items(body, pending),
                (Err(e), at) => (Err(e), at),
            },
            _ => (Err(Error::UnexpectedWireType), rest),
        }
    }
}

/// Skipping never moves the cursor backwards, and skipping at least one
/// value with success moves it forwards.
pub proof fn lemma_skip_shrinks(input: Seq<u8>, pending: nat)
    ensures
        skip_items(input, pending).1.len() <= input.len(),
        pending > 0 && skip_items(input, pending).0 is Ok ==> skip_items(input, pending).1.len()
            < input.len(),
    decreases input.len(),
{
    if pending > 0 && input.len() > 0 {
        let tagbyte = input[0];
        let rest = input.skip(1);
        match spec_wiretype(tagbyte) {
            WireType::Int => {
                if let Ok(used) = varint_span(tagbyte, rest, 18) {
                    lemma_skip_shrinks(rest.skip(used as int), (pending - 1) as nat);
                }
            },
            WireType::Fixed32 => {
                if rest.len() >= 4 {
                    lemma_skip_shrinks(rest.skip(4), (pending - 1) as nat);
                }
            },
            WireType::Fixed64 => {
                if rest.len() >= 8 {
                    lemma_skip_shrinks(rest.skip(8), (pending - 1) as nat);
                }
            },
            WireType::Sequence => {
                if let (Ok(count), body) = spec_read_varint(tagbyte, rest) {
                    lemma_skip_shrinks(body, (pending - 1 + count) as nat);
                }
            },
            WireType::Bytes => {
                if let (Ok(count), body) = spec_read_varint(tagbyte, rest) {
                    if count <= body.len() {
                        lemma_skip_shrinks(body.skip(count as int), (pending - 1) as nat);
                    }
                }
            },
            WireType::Variant => {
                if let (Ok(_), body) = spec_read_varint(tagbyte, rest) {
                    lemma_skip_shrinks(body, pending);
                }
            },
            _ => {},
        }
    }
}

/// Skipping `a + b` values is skipping `a` values and then, if that went
/// well, `b` more from where it ended.
pub proof fn lemma_skip_split(input: Seq<u8>, a: nat, b: nat)
    ensures
        skip_items(input, a + b) == (match skip_items(input, a) {
            (Ok(_), rest) => skip_items(rest, b),
            (Err(e), at) => (Err(e), at),
        }),
    decreases input.len(),
{
    if a > 0 && input.len() > 0 {
        let tagbyte = input[0];
        let rest = input.skip(1);
        match spec_wiretype(tagbyte) {
            WireType::Int => {
                if let Ok(used) = varint_span(tagbyte, rest, 18) {
                    lemma_skip_split(rest.skip(used as int), (a - 1) as nat, b);
                }
            },
            WireType::Fixed32 => {
                if rest.len() >= 4 {
                    lemma_skip_split(rest.skip(4), (a - 1) as nat, b);
                }
            },
            WireType::Fixed64 => {
                if rest.len() >= 8 {
                    lemma_skip_split(rest.skip(8), (a - 1) as nat, b);
                }
            },
            WireType::Sequence => {
                if let (Ok(count), body) = spec_read_varint(tagbyte, rest) {
                    lemma_skip_split(body, (a - 1 + count) as nat, b);
                }
            },
            WireType::Bytes => {
                if let (Ok(count), body) = spec_read_varint(tagbyte, rest) {
                    if count <= body.len() {
                        lemma_skip_split(body.skip(count as int), (a - 1) as nat, b);
                    }
                }
            },
            WireType::Variant => {
                if let (Ok(_), body) = spec_read_varint(tagbyte, rest) {
                    lemma_skip_split(body, a, b);
                }
            },
            _ => {},
        }
    }
}

impl<'de> Deserializer<'de> {
    /// A reader at the start of `input`.
    pub fn from_bytes(input: &'de [u8]) -> (d: Self)
        ensures
            d@ == input@,
    {
        Deserializer { input }
    }

    /// How many bytes are still unread.
    pub fn remaining_len(&self) -> (n: usize)
        ensures
            n == self@.len(),
    {
        self.input.len()
    }

    /// Whether `n` more bytes can be read.
    fn check(&self, n: usize) -> (r: Result<(), Error>)
        ensures
            n <= self@.len() ==> r is Ok,
            n > self@.len() ==> r == Err::<(), Error>(Error::UnexpectedEndOfInput),
    {
        if n > self.input.len() {
            Err(Error::UnexpectedEndOfInput)
        } else {
            Ok(())
        }
    }

    /// Reads the next `n` bytes, borrowed from the input.
    pub fn read(&mut self, n: usize) -> (r: Result<&'de [u8], Error>)
        ensures
            r matches Ok(bytes) ==> spec_read(old(self)@, n as nat) == (
                Ok::<Seq<u8>, Error>(bytes@),
                final(self)@,
            ),
            r matches Err(e) ==> spec_read(old(self)@, n as nat) == (
                Err::<Seq<u8>, Error>(e),
                final(self)@,
            ),
    {
        match self.check(n) {
            Ok(_) => {},
            Err(e) => {
                return Err(e);
            },
        }
        let (value, remainder) = self.input.split_at(n);
        self.input = remainder;
        assert(value@ =~= old(self)@.take(n as int));
        assert(remainder@ =~= old(self)@.skip(n as int));
        Ok(value)
    }

    /// Reads the next byte.
    pub fn read_byte(&mut self) -> (r: Result<u8, Error>)
        ensures
            (r, final(self)@) == spec_read_byte(old(self)@),
    {
        if self.input.len() == 0 {
            return Err(Error::UnexpectedEndOfInput);
        }
        let b = self.input[0];
        self.consume(1);
        Ok(b)
    }

    /// Moves the cursor `len` bytes on.
    fn consume(&mut self, len: usize)
        requires
            len <= old(self)@.len(),
        ensures
            final(self)@ == old(self)@.skip(len as int),
    {
        let (_, remainder) = self.input.split_at(len);
        self.input = remainder;
        assert(remainder@ =~= old(self)@.skip(len as int));
    }

    /// Reads the rest of a 64-bit varint whose tag byte was `tagbyte`.
    pub fn read_varint(&mut self, tagbyte: u8) -> (r: Result<u64, Error>)
        ensures
            (r, final(self)@) == spec_read_varint(tagbyte, old(self)@),
    {
        match read_varint(tagbyte, self.input) {
            Ok((value, len)) => {
                self.consume(len);
                Ok(value)
            },
            Err(e) => Err(e),
        }
    }

    /// Reads the rest of a 128-bit varint whose tag byte was `tagbyte`.
    pub fn read_varint_128(&mut self, tagbyte: u8) -> (r: Result<u128, Error>)
        ensures
            (r, final(self)@) == spec_read_varint_128(tagbyte, old(self)@),
    {
        match read_varint_128(tagbyte, self.input) {
            Ok((value, len)) => {
                self.consume(len);
                Ok(value)
            },
            Err(e) => Err(e),
        }
    }

    /// Skips one value of any wire type, children included, without
    /// interpreting it.
    pub fn skip(&mut self) -> (r: Result<(), Error>)
        ensures
            (r, final(self)@) == skip_items(old(self)@, 1),
        decreases old(self)@.len(),
    {
        let tagbyte = match self.read_byte() {
            Ok(b) => b,
            Err(e) => {
                return Err(e);
            },
        };
        match read_wiretype(tagbyte) {
            WireType::Int => {
                match skip_varint(tagbyte, self.input) {
                    Ok(len) => {
                        self.consume(len);
                    },
                    Err(e) => {
                        return Err(e);
                    },
                }
            },
            WireType::Fixed32 => {
                match self.read(4) {
                    Ok(_) => {},
                    Err(e) => {
                        return Err(e);
                    },
                }
            },
            WireType::Fixed64 => {
                match self.read(8) {
                    Ok(_) => {},
                    Err(e) => {
                        return Err(e);
                    },
                }
            },
            WireType::Sequence => {
                let len = match self.read_varint(tagbyte) {
                    Ok(len) => len,
                    Err(e) => {
                        return Err(e);
                    },
                };
                let mut i: u64 = 0;
                while i < len
                    invariant
                        i <= len,
                        self@.len() < old(self)@.len(),
                        skip_items(old(self)@, 1) == skip_items(self@, (len - i) as nat),
                    decreases len - i,
                {
                    let ghost here = self@;
                    proof {
                        lemma_skip_split(here, 1, (len - i - 1) as nat);
                        lemma_skip_shrinks(here, 1);
                    }
                    match self.skip() {
                        Ok(_) => {},
                        Err(e) => {
                            return Err(e);
                        },
                    }
                    i += 1;
                }
            },
            WireType::Bytes => {
                let len = match self.read_varint(tagbyte) {
                    Ok(len) => len,
                    Err(e) => {
                        return Err(e);
                    },
                };
                if len > self.input.len() as u64 {
                    return Err(Error::UnexpectedEndOfInput);
                }
                self.consume(len as usize);
            },
            WireType::Variant => {
                match self.read_varint(tagbyte) {
                    Ok(_) => {},
                    Err(e) => {
                        return Err(e);
                    },
                }
                return self.skip();
            },
            _ => {
                return Err(Error::UnexpectedWireType);
            },
        }
        proof {
            assert(skip_items(self@, 0) == (Ok::<(), Error>(()), self@));
        }
        Ok(())
    }
}

/// Reading the header of a value that must have the wire type `expected`:
/// the tag byte, then the rest of its 64-bit varint. Another wire type is an
/// error that leaves the cursor right after the tag byte.
pub open spec fn spec_header(input: Seq<u8>, expected: WireType) -> (Result<u64, Error>, Seq<u8>) {
    if input.len() == 0 {
        (Err(Error::UnexpectedEndOfInput), input)
    } else if spec_wiretype(input[0]) != expected {
        (Err(Error::UnexpectedWireType), input.skip(1))
    } else {
        spec_read_varint(input[0], input.skip(1))
    }
}

/// Reading `width` little-endian bytes as a number.
pub open spec fn spec_fixed(input: Seq<u8>, width: nat) -> (Result<nat, Error>, Seq<u8>) {
    match spec_read(input, width) {
        (Ok(bytes), rest) => (Ok(le_value(bytes)), rest),
        (Err(e), at) => (Err(e), at),
    }
}

/// Decoding an unsigned integer of at most 64 bits that may be no greater
/// than `max`. The value is an `Int` varint, or, where `fixed_width` is not
/// zero, that many little-endian bytes under the matching fixed wire type
/// (`Fixed32` for four, `Fixed64` for eight).
pub open spec fn spec_unsigned(input: Seq<u8>, max: nat, fixed_width: nat) -> (
    Result<nat, Error>,
    Seq<u8>,
) {
    if input.len() == 0 {
        (Err(Error::UnexpectedEndOfInput), input)
    } else if spec_wiretype(input[0]) == WireType::Int {
        match spec_read_varint(input[0], input.skip(1)) {
            (Ok(value), rest) => if value <= max {
                (Ok(value as nat), rest)
            } else {
                (Err(Error::ValueOverflow), rest)
            },
            (Err(e), at) => (Err(e), at),
        }
    } else if fixed_width != 0 && spec_wiretype(input[0]) == fixed_wiretype(fixed_width) {
        spec_fixed(input.skip(1), fixed_width)
    } else {
        (Err(Error::UnexpectedWireType), input.skip(1))
    }
}

/// The fixed wire type of a payload of `width` bytes.
pub open spec fn fixed_wiretype(width: nat) -> WireType {
    if width == 4 {
        WireType::Fixed32
    } else {
        WireType::Fixed64
    }
}

/// Decoding a signed integer of at most 64 bits that must lie between `min`
/// and `max`. The value is a zig-zag `Int` varint, or, where `fixed_width` is
/// not zero, that many little-endian bytes in two's complement under the
/// matching fixed wire type.
pub open spec fn spec_signed(input: Seq<u8>, min: int, max: int, fixed_width: nat) -> (
    Result<int, Error>,
    Seq<u8>,
) {
    if input.len() == 0 {
        (Err(Error::UnexpectedEndOfInput), input)
    } else if spec_wiretype(input[0]) == WireType::Int {
        match spec_read_varint(input[0], input.skip(1)) {
            (Ok(raw), rest) => if min <= unzigzag(raw as nat) <= max {
                (Ok(unzigzag(raw as nat)), rest)
            } else {
                (Err(Error::ValueOverflow), rest)
            },
            (Err(e), at) => (Err(e), at),
        }
    } else if fixed_width != 0 && spec_wiretype(input[0]) == fixed_wiretype(fixed_width) {
        match spec_fixed(input.skip(1), fixed_width) {
            (Ok(bits), rest) => (
                Ok(
                    as_signed(
                        bits,
                        if fixed_width == 4 {
                            0x1_0000_0000
                        } else {
                            modulus_64()
                        },
                    ),
                ),
                rest,
            ),
            (Err(e), at) => (Err(e), at),
        }
    } else {
        (Err(Error::UnexpectedWireType), input.skip(1))
    }
}

/// Decoding a 128-bit unsigned integer: an `Int` varint, nothing else.
pub open spec fn spec_unsigned_128(input: Seq<u8>) -> (Result<u128, Error>, Seq<u8>) {
    if input.len() == 0 {
        (Err(Error::UnexpectedEndOfInput), input)
    } else if spec_wiretype(input[0]) != WireType::Int {
        (Err(Error::UnexpectedWireType), input.skip(1))
    } else {
        spec_read_varint_128(input[0], input.skip(1))
    }
}

/// Decoding a 128-bit signed integer: a zig-zag `Int` varint, nothing else.
pub open spec fn spec_signed_128(input: Seq<u8>) -> (Result<int, Error>, Seq<u8>) {
    match spec_unsigned_128(input) {
        (Ok(raw), rest) => (Ok(unzigzag(raw as nat)), rest),
        (Err(e), at) => (Err(e), at),
    }
}

/// The bits of a fixed-width value, as they stand on the wire.
#[derive(Debug, Clone, Copy, PartialEq, Eq, Structural)]
pub enum FixedBits {
    /// Four bytes, under `Fixed32`.
    Bits32(u32),
    /// Eight bytes, under `Fixed64`.
    Bits64(u64),
}

/// Decoding a fixed-width value of either width.
pub open spec fn spec_fixed_bits(input: Seq<u8>) -> (Result<FixedBits, Error>, Seq<u8>) {
    if input.len() == 0 {
        (Err(Error::UnexpectedEndOfInput), input)
    } else if spec_wiretype(input[0]) == WireType::Fixed32 {
        match spec_fixed(input.skip(1), 4) {
            (Ok(bits), rest) => (Ok(FixedBits::Bits32(bits as u32)), rest),
            (Err(e), at) => (Err(e), at),
        }
    } else if spec_wiretype(input[0]) == WireType::Fixed64 {
        match spec_fixed(input.skip(1), 8) {
            (Ok(bits), rest) => (Ok(FixedBits::Bits64(bits as u64)), rest),
            (Err(e), at) => (Err(e), at),
        }
    } else {
        (Err(Error::UnexpectedWireType), input.skip(1))
    }
}

/// Decoding a `bool`: any unsigned integer of 64 bits, false if and only if
/// it is zero.
pub open spec fn spec_bool(input: Seq<u8>) -> (Result<bool, Error>, Seq<u8>) {
    match spec_unsigned(input, u64::MAX as nat, 8) {
        (Ok(value), rest) => (Ok(value != 0), rest),
        (Err(e), at) => (Err(e), at),
    }
}

/// Decoding a `char`: an unsigned integer of 32 bits that is a Unicode
/// scalar value.
pub open spec fn spec_char(input: Seq<u8>) -> (Result<char, Error>, Seq<u8>) {
    match spec_unsigned(input, u32::MAX as nat, 4) {
        (Ok(value), rest) => if is_scalar(value as u32) {
            (Ok(value as char), rest)
        } else {
            (Err(Error::InvalidChar), rest)
        },
        (Err(e), at) => (Err(e), at),
    }
}

/// Decoding a byte string: a `Bytes` header with the count, then that many
/// bytes. If fewer are left, the cursor stays after the header.
pub open spec fn spec_bytes(input: Seq<u8>) -> (Result<Seq<u8>, Error>, Seq<u8>) {
    match spec_header(input, WireType::Bytes) {
        (Ok(count), body) => spec_read(body, count as nat),
        (Err(e), at) => (Err(e), at),
    }
}

/// Decoding a string: a byte string that is valid UTF-8. The result is the
/// string's bytes.
pub open spec fn spec_str(input: Seq<u8>) -> (Result<Seq<u8>, Error>, Seq<u8>) {
    match spec_bytes(input) {
        (Ok(bytes), rest) => if valid_utf8(bytes) {
            (Ok(bytes), rest)
        } else {
            (Err(Error::InvalidUtf8), rest)
        },
        (Err(e), at) => (Err(e), at),
    }
}

/// Decoding the header of an option: a `Variant` whose discriminant is zero
/// for none, followed by one value that is skipped, and anything else for
/// some, followed by the value. The result says whether a value follows.
pub open spec fn spec_option(input: Seq<u8>) -> (Result<bool, Error>, Seq<u8>) {
    match spec_header(input, WireType::Variant) {
        (Ok(discriminant), body) => if discriminant == 0 {
            match skip_items(body, 1) {
                (Ok(_), rest) => (Ok(false), rest),
                (Err(e), at) => (Err(e), at),
            }
        } else {
            (Ok(true), body)
        },
        (Err(e), at) => (Err(e), at),
    }
}

/// Decoding the header of a record that the reader expects to have `declared`
/// elements: the count on the wire, and how many of them the reader is shown,
/// the smaller of the two.
pub open spec fn spec_tuple(input: Seq<u8>, declared: nat) -> (Result<(nat, nat), Error>, Seq<u8>) {
    match spec_header(input, WireType::Sequence) {
        (Ok(count), body) => (
            Ok(
                (
                    count as nat,
                    if count <= declared {
                        count as nat
                    } else {
                        declared
                    },
                ),
            ),
            body,
        ),
        (Err(e), at) => (Err(e), at),
    }
}

/// Decoding the header of a sequence of any length: the count on the wire,
/// all of which the reader is shown.
pub open spec fn spec_seq(input: Seq<u8>) -> (Result<(nat, nat), Error>, Seq<u8>) {
    match spec_header(input, WireType::Sequence) {
        (Ok(count), body) => (Ok((count as nat, count as nat)), body),
        (Err(e), at) => (Err(e), at),
    }
}

/// Decoding the header of a map: a sequence with an even count, keys and
/// values in turn, of which the reader is shown half as entries.
pub open spec fn spec_map(input: Seq<u8>) -> (Result<(nat, nat), Error>, Seq<u8>) {
    match spec_header(input, WireType::Sequence) {
        (Ok(count), body) => if count % 2 != 0 {
            (Err(Error::InvalidMap), body)
        } else {
            (Ok((count as nat, (count / 2) as nat)), body)
        },
        (Err(e), at) => (Err(e), at),
    }
}

/// Decoding the header of an enum variant: a `Variant` whose discriminant
/// fits in 32 bits. One value follows.
pub open spec fn spec_variant(input: Seq<u8>) -> (Result<u32, Error>, Seq<u8>) {
    match spec_header(input, WireType::Variant) {
        (Ok(discriminant), body) => if discriminant <= u32::MAX {
            (Ok(discriminant as u32), body)
        } else {
            (Err(Error::ValueOverflow), body)
        },
        (Err(e), at) => (Err(e), at),
    }
}

/// The whole-buffer rule: nothing may be left unread.
pub open spec fn spec_end(input: Seq<u8>) -> Result<(), Error> {
    if input.len() > 0 {
        Err(Error::DataBeyondEnd)
    } else {
        Ok(())
    }
}

/// Calls `char::try_from` on a `u32`. The claim is the one of std's
/// documentation: the call succeeds exactly on Unicode scalar values, and
/// the `char` it returns has the number that went in.
#[verifier::external_body]
fn char_try_from(value: u32) -> (r: Result<char, std::char::CharTryFromError>)
    ensures
        r is Ok <==> is_scalar(value),
        r matches Ok(c) ==> c as u32 == value,
{
    char::try_from(value)
}

/// Calls `std::str::from_utf8`. The claim is the one of std's documentation:
/// the call succeeds exactly on valid UTF-8, and the string it returns is
/// the same bytes.
#[verifier::external_body]
fn str_from_utf8<'a>(bytes: &'a [u8]) -> (r: Result<&'a str, std::str::Utf8Error>)
    ensures
        r is Ok <==> valid_utf8(bytes@),
        r matches Ok(s) ==> s.spec_bytes() == bytes@,
{
    std::str::from_utf8(bytes)
}

impl<'de> Deserializer<'de> {
    /// Reads the next four bytes.
    pub fn read_32(&mut self) -> (r: Result<[u8; 4], Error>)
        ensures
            r matches Ok(bytes) ==> spec_read(old(self)@, 4) == (
                Ok::<Seq<u8>, Error>(bytes@),
                final(self)@,
            ),
            r matches Err(e) ==> spec_read(old(self)@, 4) == (
                Err::<Seq<u8>, Error>(e),
                final(self)@,
            ),
    {
        match self.read(4) {
            Ok(s) => {
                let bytes = [s[0], s[1], s[2], s[3]];
                assert(bytes@ =~= s@);
                Ok(bytes)
            },
            Err(e) => Err(e),
        }
    }

    /// Reads the next eight bytes.
    pub fn read_64(&mut self) -> (r: Result<[u8; 8], Error>)
        ensures
            r matches Ok(bytes) ==> spec_read(old(self)@, 8) == (
                Ok::<Seq<u8>, Error>(bytes@),
                final(self)@,
            ),
            r matches Err(e) ==> spec_read(old(self)@, 8) == (
                Err::<Seq<u8>, Error>(e),
                final(self)@,
            ),
    {
        match self.read(8) {
            Ok(s) => {
                let bytes = [s[0], s[1], s[2], s[3], s[4], s[5], s[6], s[7]];
                assert(bytes@ =~= s@);
                Ok(bytes)
            },
            Err(e) => Err(e),
        }
    }

    /// Reads the header of a value that must have the wire type `expected`.
    pub fn read_header(&mut self, expected: WireType) -> (r: Result<u64, Error>)
        ensures
            (r, final(self)@) == spec_header(old(self)@, expected),
    {
        let tagbyte = match self.read_byte() {
            Ok(b) => b,
            Err(e) => {
                return Err(e);
            },
        };
        if read_wiretype(tagbyte) != expected {
            return Err(Error::UnexpectedWireType);
        }
        self.read_varint(tagbyte)
    }
}

impl<'de> Deserializer<'de> {
    /// Decodes an `i8`: a zig-zag `Int` varint that fits in `i8`.
    pub fn deserialize_i8(&mut self) -> (r: Result<i8, Error>)
        ensures
            r matches Ok(value) ==> spec_signed(old(self)@, i8::MIN as int, i8::MAX as int, 0) == (
                Ok::<int, Error>(value as int),
                final(self)@,
            ),
            r matches Err(e) ==> spec_signed(old(self)@, i8::MIN as int, i8::MAX as int, 0) == (
                Err::<int, Error>(e),
                final(self)@,
            ),
    {
        let raw = match self.read_header(WireType::Int) {
            Ok(raw) => raw,
            Err(e) => {
                return Err(e);
            },
        };
        match i8::try_from(zigzag_decode(raw)) {
            Ok(value) => Ok(value),
            Err(e) => Err(Error::from(e)),
        }
    }

    /// Decodes an `i16`: a zig-zag `Int` varint that fits in `i16`.
    pub fn deserialize_i16(&mut self) -> (r: Result<i16, Error>)
        ensures
            r matches Ok(value) ==> spec_signed(old(self)@, i16::MIN as int, i16::MAX as int, 0) == (
                Ok::<int, Error>(value as int),
                final(self)@,
            ),
            r matches Err(e) ==> spec_signed(old(self)@, i16::MIN as int, i16::MAX as int, 0) == (
                Err::<int, Error>(e),
                final(self)@,
            ),
    {
        let raw = match self.read_header(WireType::Int) {
            Ok(raw) => raw,
            Err(e) => {
                return Err(e);
            },
        };
        match i16::try_from(zigzag_decode(raw)) {
            Ok(value) => Ok(value),
            Err(e) => Err(Error::from(e)),
        }
    }

    /// Decodes an `i32`: a zig-zag `Int` varint that fits in `i32`, or 4 little-
    /// endian bytes in two's complement under `Fixed32`.
    pub fn deserialize_i32(&mut self) -> (r: Result<i32, Error>)
        ensures
            r matches Ok(value) ==> spec_signed(old(self)@, i32::MIN as int, i32::MAX as int, 4) == (
                Ok::<int, Error>(value as int),
                final(self)@,
            ),
            r matches Err(e) ==> spec_signed(old(self)@, i32::MIN as int, i32::MAX as int, 4) == (
                Err::<int, Error>(e),
                final(self)@,
            ),
    {
        let tagbyte = match self.read_byte() {
            Ok(b) => b,
            Err(e) => {
                return Err(e);
            },
        };
        match read_wiretype(tagbyte) {
            WireType::Int => {
                let raw = match self.read_varint(tagbyte) {
                    Ok(raw) => raw,
                    Err(e) => {
                        return Err(e);
                    },
                };
                match i32::try_from(zigzag_decode(raw)) {
                    Ok(value) => Ok(value),
                    Err(e) => Err(Error::from(e)),
                }
            },
            WireType::Fixed32 => {
                match self.read_32() {
                    Ok(bytes) => Ok(i32_from_bits(u32_from_le(bytes))),
                    Err(e) => Err(e),
                }
            },
            _ => Err(Error::UnexpectedWireType),
        }
    }

    /// Decodes an `i64`: a zig-zag `Int` varint that fits in `i64`, or 8 little-
    /// endian bytes in two's complement under `Fixed64`.
    pub fn deserialize_i64(&mut self) -> (r: Result<i64, Error>)
        ensures
            r matches Ok(value) ==> spec_signed(old(self)@, i64::MIN as int, i64::MAX as int, 8) == (
                Ok::<int, Error>(value as int),
                final(self)@,
            ),
            r matches Err(e) ==> spec_signed(old(self)@, i64::MIN as int, i64::MAX as int, 8) == (
                Err::<int, Error>(e),
                final(self)@,
            ),
    {
        let tagbyte = match self.read_byte() {
            Ok(b) => b,
            Err(e) => {
                return Err(e);
            },
        };
        match read_wiretype(tagbyte) {
            WireType::Int => {
                let raw = match self.read_varint(tagbyte) {
                    Ok(raw) => raw,
                    Err(e) => {
                        return Err(e);
                    },
                };
                Ok(zigzag_decode(raw))
            },
            WireType::Fixed64 => {
                match self.read_64() {
                    Ok(bytes) => Ok(i64_from_bits(u64_from_le(bytes))),
                    Err(e) => Err(e),
                }
            },
            _ => Err(Error::UnexpectedWireType),
        }
    }

    /// Decodes a `u8`: an `Int` varint that fits in `u8`.
    pub fn deserialize_u8(&mut self) -> (r: Result<u8, Error>)
        ensures
            r matches Ok(value) ==> spec_unsigned(old(self)@, u8::MAX as nat, 0) == (
                Ok::<nat, Error>(value as nat),
                final(self)@,
            ),
            r matches Err(e) ==> spec_unsigned(old(self)@, u8::MAX as nat, 0) == (
                Err::<nat, Error>(e),
                final(self)@,
            ),
    {
        let raw = match self.read_header(WireType::Int) {
            Ok(raw) => raw,
            Err(e) => {
                return Err(e);
            },
        };
        match u8::try_from(raw) {
            Ok(value) => Ok(value),
            Err(e) => Err(Error::from(e)),
        }
    }

    /// Decodes a `u16`: an `Int` varint that fits in `u16`.
    pub fn deserialize_u16(&mut self) -> (r: Result<u16, Error>)
        ensures
            r matches Ok(value) ==> spec_unsigned(old(self)@, u16::MAX as nat, 0) == (
                Ok::<nat, Error>(value as nat),
                final(self)@,
            ),
            r matches Err(e) ==> spec_unsigned(old(self)@, u16::MAX as nat, 0) == (
                Err::<nat, Error>(e),
                final(self)@,
            ),
    {
        let raw = match self.read_header(WireType::Int) {
            Ok(raw) => raw,
            Err(e) => {
                return Err(e);
            },
        };
        match u16::try_from(raw) {
            Ok(value) => Ok(value),
            Err(e) => Err(Error::from(e)),
        }
    }

    /// Decodes a `u32`: an `Int` varint that fits in `u32`, or 4 little-endian
    /// bytes under `Fixed32`.
    pub fn deserialize_u32(&mut self) -> (r: Result<u32, Error>)
        ensures
            r matches Ok(value) ==> spec_unsigned(old(self)@, u32::MAX as nat, 4) == (
                Ok::<nat, Error>(value as nat),
                final(self)@,
            ),
            r matches Err(e) ==> spec_unsigned(old(self)@, u32::MAX as nat, 4) == (
                Err::<nat, Error>(e),
                final(self)@,
            ),
    {
        let tagbyte = match self.read_byte() {
            Ok(b) => b,
            Err(e) => {
                return Err(e);
            },
        };
        match read_wiretype(tagbyte) {
            WireType::Int => {
                let raw = match self.read_varint(tagbyte) {
                    Ok(raw) => raw,
                    Err(e) => {
                        return Err(e);
                    },
                };
                match u32::try_from(raw) {
                    Ok(value) => Ok(value),
                    Err(e) => Err(Error::from(e)),
                }
            },
            WireType::Fixed32 => {
                match self.read_32() {
                    Ok(bytes) => Ok(u32_from_le(bytes)),
                    Err(e) => Err(e),
                }
            },
            _ => Err(Error::UnexpectedWireType),
        }
    }

    /// Decodes a `u64`: an `Int` varint that fits in `u64`, or 8 little-endian
    /// bytes under `Fixed64`.
    pub fn deserialize_u64(&mut self) -> (r: Result<u64, Error>)
        ensures
            r matches Ok(value) ==> spec_unsigned(old(self)@, u64::MAX as nat, 8) == (
                Ok::<nat, Error>(value as nat),
                final(self)@,
            ),
            r matches Err(e) ==> spec_unsigned(old(self)@, u64::MAX as nat, 8) == (
                Err::<nat, Error>(e),
                final(self)@,
            ),
    {
        let tagbyte = match self.read_byte() {
            Ok(b) => b,
            Err(e) => {
                return Err(e);
            },
        };
        match read_wiretype(tagbyte) {
            WireType::Int => {
                let raw = match self.read_varint(tagbyte) {
                    Ok(raw) => raw,
                    Err(e) => {
                        return Err(e);
                    },
                };
                Ok(raw)
            },
            WireType::Fixed64 => {
                match self.read_64() {
                    Ok(bytes) => Ok(u64_from_le(bytes)),
                    Err(e) => Err(e),
                }
            },
            _ => Err(Error::UnexpectedWireType),
        }
    }

    /// Decodes an `i128`: a zig-zag `Int` varint of up to 128 bits.
    pub fn deserialize_i128(&mut self) -> (r: Result<i128, Error>)
        ensures
            r matches Ok(value) ==> spec_signed_128(old(self)@) == (
                Ok::<int, Error>(value as int),
                final(self)@,
            ),
            r matches Err(e) ==> spec_signed_128(old(self)@) == (
                Err::<int, Error>(e),
                final(self)@,
            ),
    {
        match self.deserialize_u128() {
            Ok(raw) => Ok(zigzag_decode_128(raw)),
            Err(e) => Err(e),
        }
    }

    /// Decodes a `u128`: an `Int` varint of up to 128 bits.
    pub fn deserialize_u128(&mut self) -> (r: Result<u128, Error>)
        ensures
            (r, final(self)@) == spec_unsigned_128(old(self)@),
    {
        let tagbyte = match self.read_byte() {
            Ok(b) => b,
            Err(e) => {
                return Err(e);
            },
        };
        if read_wiretype(tagbyte) != WireType::Int {
            return Err(Error::UnexpectedWireType);
        }
        self.read_varint_128(tagbyte)
    }

    /// Decodes the bits of a fixed-width value, of either width. A reader of
    /// floating-point numbers takes them from here and widens or narrows as
    /// its target type asks.
    pub fn deserialize_fixed(&mut self) -> (r: Result<FixedBits, Error>)
        ensures
            (r, final(self)@) == spec_fixed_bits(old(self)@),
    {
        let tagbyte = match self.read_byte() {
            Ok(b) => b,
            Err(e) => {
                return Err(e);
            },
        };
        match read_wiretype(tagbyte) {
            WireType::Fixed32 => {
                match self.read_32() {
                    Ok(bytes) => Ok(FixedBits::Bits32(u32_from_le(bytes))),
                    Err(e) => Err(e),
                }
            },
            WireType::Fixed64 => {
                match self.read_64() {
                    Ok(bytes) => Ok(FixedBits::Bits64(u64_from_le(bytes))),
                    Err(e) => Err(e),
                }
            },
            _ => Err(Error::UnexpectedWireType),
        }
    }

    /// Decodes a `bool`: any unsigned 64-bit integer, false if and only if it
    /// is zero.
    pub fn deserialize_bool(&mut self) -> (r: Result<bool, Error>)
        ensures
            (r, final(self)@) == spec_bool(old(self)@),
    {
        match self.deserialize_u64() {
            Ok(value) => Ok(value != 0),
            Err(e) => Err(e),
        }
    }

    /// Decodes a `char`: an unsigned 32-bit integer that is a Unicode scalar
    /// value.
    pub fn deserialize_char(&mut self) -> (r: Result<char, Error>)
        ensures
            (r, final(self)@) == spec_char(old(self)@),
    {
        let value = match self.deserialize_u32() {
            Ok(value) => value,
            Err(e) => {
                return Err(e);
            },
        };
        match char_try_from(value) {
            Ok(c) => {
                proof {
                    char_u32_cast(c, value);
                }
                Ok(c)
            },
            Err(e) => Err(Error::from(e)),
        }
    }

    /// Decodes a byte string, borrowed from the input.
    pub fn deserialize_bytes(&mut self) -> (r: Result<&'de [u8], Error>)
        ensures
            r matches Ok(bytes) ==> spec_bytes(old(self)@) == (
                Ok::<Seq<u8>, Error>(bytes@),
                final(self)@,
            ),
            r matches Err(e) ==> spec_bytes(old(self)@) == (
                Err::<Seq<u8>, Error>(e),
                final(self)@,
            ),
    {
        let len = match self.read_header(WireType::Bytes) {
            Ok(len) => len,
            Err(e) => {
                return Err(e);
            },
        };
        if len > self.input.len() as u64 {
            return Err(Error::UnexpectedEndOfInput);
        }
        self.read(len as usize)
    }

    /// Decodes a string, borrowed from the input: a byte string that must be
    /// valid UTF-8.
    pub fn deserialize_str(&mut self) -> (r: Result<&'de str, Error>)
        ensures
            r matches Ok(text) ==> spec_str(old(self)@) == (
                Ok::<Seq<u8>, Error>(text.spec_bytes()),
                final(self)@,
            ),
            r matches Err(e) ==> spec_str(old(self)@) == (
                Err::<Seq<u8>, Error>(e),
                final(self)@,
            ),
    {
        let bytes = match self.deserialize_bytes() {
            Ok(bytes) => bytes,
            Err(e) => {
                return Err(e);
            },
        };
        match str_from_utf8(bytes) {
            Ok(text) => Ok(text),
            Err(e) => Err(Error::from(e)),
        }
    }

    /// Decodes the header of an option and says whether a value follows. For
    /// none, the placeholder on the wire is skipped.
    pub fn deserialize_option(&mut self) -> (r: Result<bool, Error>)
        ensures
            (r, final(self)@) == spec_option(old(self)@),
    {
        let discriminant = match self.read_header(WireType::Variant) {
            Ok(discriminant) => discriminant,
            Err(e) => {
                return Err(e);
            },
        };
        if discriminant == 0 {
            match self.skip() {
                Ok(_) => Ok(false),
                Err(e) => Err(e),
            }
        } else {
            Ok(true)
        }
    }

    /// Decodes a unit: one value of any wire type, skipped.
    pub fn deserialize_unit(&mut self) -> (r: Result<(), Error>)
        ensures
            (r, final(self)@) == skip_items(old(self)@, 1),
    {
        self.skip()
    }

    /// Decodes a unit struct, as a unit.
    pub fn deserialize_unit_struct(&mut self) -> (r: Result<(), Error>)
        ensures
            (r, final(self)@) == skip_items(old(self)@, 1),
    {
        self.skip()
    }

    /// Steps over a value that the reader has no use for.
    pub fn deserialize_ignored_any(&mut self) -> (r: Result<(), Error>)
        ensures
            (r, final(self)@) == skip_items(old(self)@, 1),
    {
        self.skip()
    }

    /// Decodes the number that stands for a name in the reader's type, such
    /// as the index of a field: an unsigned 32-bit integer.
    pub fn deserialize_identifier(&mut self) -> (r: Result<u32, Error>)
        ensures
            r matches Ok(value) ==> spec_unsigned(old(self)@, u32::MAX as nat, 4) == (
                Ok::<nat, Error>(value as nat),
                final(self)@,
            ),
            r matches Err(e) ==> spec_unsigned(old(self)@, u32::MAX as nat, 4) == (
                Err::<nat, Error>(e),
                final(self)@,
            ),
    {
        self.deserialize_u32()
    }

    /// Decodes the header of a sequence of any length.
    pub fn deserialize_seq(&mut self) -> (r: Result<SeqRead, Error>)
        ensures
            r matches Ok(reader) ==> reader.wf() && spec_seq(old(self)@) == (
                Ok::<(nat, nat), Error>((reader.pending(), reader.exposed())),
                final(self)@,
            ),
            r matches Err(e) ==> spec_seq(old(self)@) == (
                Err::<(nat, nat), Error>(e),
                final(self)@,
            ),
    {
        match self.read_header(WireType::Sequence) {
            Ok(n) => Ok(SeqRead { nread: n, nreturn: n }),
            Err(e) => Err(e),
        }
    }

    /// Decodes the header of a tuple, tuple struct or struct that the reader
    /// expects to have `len` elements. The reader is shown the smaller of
    /// `len` and the count on the wire; `SeqRead::finish` skips the rest.
    pub fn deserialize_tuple(&mut self, len: usize) -> (r: Result<SeqRead, Error>)
        ensures
            r matches Ok(reader) ==> reader.wf() && spec_tuple(old(self)@, len as nat) == (
                Ok::<(nat, nat), Error>((reader.pending(), reader.exposed())),
                final(self)@,
            ),
            r matches Err(e) ==> spec_tuple(old(self)@, len as nat) == (
                Err::<(nat, nat), Error>(e),
                final(self)@,
            ),
    {
        match self.read_header(WireType::Sequence) {
            Ok(n) => {
                let shown: u64 = if n <= len as u64 {
                    n
                } else {
                    len as u64
                };
                Ok(SeqRead { nread: n, nreturn: shown })
            },
            Err(e) => Err(e),
        }
    }

    /// Decodes the header of a tuple struct that the reader expects to have
    /// `len` fields, as a tuple.
    pub fn deserialize_tuple_struct(&mut self, len: usize) -> (r: Result<SeqRead, Error>)
        ensures
            r matches Ok(reader) ==> reader.wf() && spec_tuple(old(self)@, len as nat) == (
                Ok::<(nat, nat), Error>((reader.pending(), reader.exposed())),
                final(self)@,
            ),
            r matches Err(e) ==> spec_tuple(old(self)@, len as nat) == (
                Err::<(nat, nat), Error>(e),
                final(self)@,
            ),
    {
        self.deserialize_tuple(len)
    }

    /// Decodes the header of a struct that the reader expects to have `len`
    /// fields, as a tuple: fields go by their position, not by their name.
    pub fn deserialize_struct(&mut self, len: usize) -> (r: Result<SeqRead, Error>)
        ensures
            r matches Ok(reader) ==> reader.wf() && spec_tuple(old(self)@, len as nat) == (
                Ok::<(nat, nat), Error>((reader.pending(), reader.exposed())),
                final(self)@,
            ),
            r matches Err(e) ==> spec_tuple(old(self)@, len as nat) == (
                Err::<(nat, nat), Error>(e),
                final(self)@,
            ),
    {
        self.deserialize_tuple(len)
    }

    /// Decodes the header of a map. The reader is shown half the count on the
    /// wire as entries; an odd count is rejected.
    pub fn deserialize_map(&mut self) -> (r: Result<SeqRead, Error>)
        ensures
            r matches Ok(reader) ==> reader.wf() && spec_map(old(self)@) == (
                Ok::<(nat, nat), Error>((reader.pending(), reader.exposed())),
                final(self)@,
            ),
            r matches Err(e) ==> spec_map(old(self)@) == (
                Err::<(nat, nat), Error>(e),
                final(self)@,
            ),
    {
        match self.read_header(WireType::Sequence) {
            Ok(n) => {
                if n % 2 != 0 {
                    return Err(Error::InvalidMap);
                }
                Ok(SeqRead { nread: n, nreturn: n / 2 })
            },
            Err(e) => Err(e),
        }
    }

    /// Decodes the header of an enum variant: its discriminant, and a reader
    /// for the one value that follows.
    pub fn deserialize_variant(&mut self) -> (r: Result<(u32, SeqRead), Error>)
        ensures
            r matches Ok((discriminant, reader)) ==> reader.pending() == 1 && reader.exposed() == 1
                && spec_variant(old(self)@) == (Ok::<u32, Error>(discriminant), final(self)@),
            r matches Err(e) ==> spec_variant(old(self)@) == (Err::<u32, Error>(e), final(self)@),
    {
        let raw = match self.read_header(WireType::Variant) {
            Ok(raw) => raw,
            Err(e) => {
                return Err(e);
            },
        };
        match u32::try_from(raw) {
            Ok(discriminant) => Ok((discriminant, SeqRead { nread: 1, nreturn: 1 })),
            Err(e) => Err(Error::from(e)),
        }
    }

    /// How many bytes have been read of an input that was `total` bytes
    /// long.
    pub fn consumed(&self, total: usize) -> (n: usize)
        requires
            self@.len() <= total,
        ensures
            n == total - self@.len(),
    {
        total - self.input.len()
    }

    /// The whole-buffer rule: an error if any input is left unread.
    pub fn end(&self) -> (r: Result<(), Error>)
        ensures
            r == spec_end(self@),
    {
        if self.input.len() > 0 {
            Err(Error::DataBeyondEnd)
        } else {
            Ok(())
        }
    }
}

/// What is left of a record, a map or a variant that is being read: how many
/// values are still on the wire, and how many of them the reader is still to
/// be shown. `finish` skips what was not read.
pub struct SeqRead {
    nread: u64,
    nreturn: u64,
}

impl SeqRead {
    /// How many values of this record are still on the wire.
    pub closed spec fn pending(&self) -> nat {
        self.nread as nat
    }

    /// How many more elements (for a map: entries) the reader will be shown.
    pub closed spec fn exposed(&self) -> nat {
        self.nreturn as nat
    }

    /// No more is shown than is there.
    pub open spec fn wf(&self) -> bool {
        self.exposed() <= self.pending()
    }

    /// How many values of this record are still on the wire.
    pub fn values_left(&self) -> (n: u64)
        ensures
            n == self.pending(),
    {
        self.nread
    }

    /// How many more elements (for a map: entries) the reader will be shown.
    pub fn elements_left(&self) -> (n: u64)
        ensures
            n == self.exposed(),
    {
        self.nreturn
    }

    /// How many more elements the reader will be shown, if that fits a
    /// `usize`.
    pub fn size_hint(&self) -> (hint: Option<usize>)
        ensures
            self.exposed() <= usize::MAX ==> hint == Some(self.exposed() as usize),
            self.exposed() > usize::MAX ==> hint is None,
    {
        if self.nreturn <= usize::MAX as u64 {
            Some(self.nreturn as usize)
        } else {
            None
        }
    }

    /// Says whether another element is to be shown, and if so counts it as
    /// read: the caller decodes it next.
    pub fn next_element(&mut self) -> (more: bool)
        requires
            old(self).wf(),
        ensures
            more == (old(self).exposed() > 0),
            more ==> final(self).exposed() == old(self).exposed() - 1 && final(self).pending()
                == old(self).pending() - 1,
            !more ==> *final(self) == *old(self),
            final(self).wf(),
    {
        if self.nreturn == 0 {
            return false;
        }
        self.nreturn -= 1;
        self.nread -= 1;
        true
    }

    /// Says whether another map entry is to be shown, and if so counts its
    /// key as read: the caller decodes the key next.
    pub fn next_key(&mut self) -> (more: bool)
        requires
            old(self).wf(),
        ensures
            more == (old(self).exposed() > 0),
            more ==> final(self).exposed() == old(self).exposed() - 1 && final(self).pending()
                == old(self).pending() - 1,
            !more ==> *final(self) == *old(self),
            final(self).wf(),
    {
        self.next_element()
    }

    /// Counts the value of a map entry as read: the caller decodes it next.
    pub fn next_value(&mut self)
        requires
            old(self).pending() > 0,
        ensures
            final(self).pending() == old(self).pending() - 1,
            final(self).exposed() == old(self).exposed(),
    {
        self.nread -= 1;
    }

    /// Reads a unit variant: skips the one value that stands for it, and then
    /// whatever else this reader still had on the wire.
    pub fn unit_variant(self, d: &mut Deserializer) -> (r: Result<(), Error>)
        requires
            self.pending() > 0,
        ensures
            r == skip_items(old(d)@, 1).0,
            final(d)@ == skip_items(skip_items(old(d)@, 1).1, (self.pending() - 1) as nat).1,
    {
        let mut rest = self;
        rest.nread -= 1;
        let r = d.skip();
        let _ = rest.finish(d);
        r
    }

    /// Counts the value of a newtype variant as read: the caller decodes it
    /// next.
    pub fn newtype_variant(&mut self)
        requires
            old(self).pending() > 0,
        ensures
            final(self).pending() == old(self).pending() - 1,
            final(self).exposed() == old(self).exposed(),
    {
        self.nread -= 1;
    }

    /// Reads the header of a tuple variant that the reader expects to have
    /// `len` fields, and counts the variant's value as read.
    pub fn tuple_variant(&mut self, d: &mut Deserializer, len: usize) -> (r: Result<SeqRead, Error>)
        requires
            old(self).pending() > 0,
        ensures
            final(self).pending() == old(self).pending() - 1,
            final(self).exposed() == old(self).exposed(),
            r matches Ok(reader) ==> reader.wf() && spec_tuple(old(d)@, len as nat) == (
                Ok::<(nat, nat), Error>((reader.pending(), reader.exposed())),
                final(d)@,
            ),
            r matches Err(e) ==> spec_tuple(old(d)@, len as nat) == (
                Err::<(nat, nat), Error>(e),
                final(d)@,
            ),
    {
        self.nread -= 1;
        d.deserialize_tuple(len)
    }

    /// Reads the header of a struct variant that the reader expects to have
    /// `len` fields, as a tuple variant.
    pub fn struct_variant(&mut self, d: &mut Deserializer, len: usize) -> (r: Result<
        SeqRead,
        Error,
    >)
        requires
            old(self).pending() > 0,
        ensures
            final(self).pending() == old(self).pending() - 1,
            final(self).exposed() == old(self).exposed(),
            r matches Ok(reader) ==> reader.wf() && spec_tuple(old(d)@, len as nat) == (
                Ok::<(nat, nat), Error>((reader.pending(), reader.exposed())),
                final(d)@,
            ),
            r matches Err(e) ==> spec_tuple(old(d)@, len as nat) == (
                Err::<(nat, nat), Error>(e),
                final(d)@,
            ),
    {
        self.tuple_variant(d, len)
    }

    /// Skips the values of this record that were not read, stopping at the
    /// first that cannot be skipped.
    pub fn finish(self, d: &mut Deserializer) -> (r: Result<(), Error>)
        ensures
            (r, final(d)@) == skip_items(old(d)@, self.pending()),
    {
        let mut left: u64 = self.nread;
        while left > 0
            invariant
                skip_items(old(d)@, self.pending()) == skip_items(d@, left as nat),
            decreases left,
        {
            proof {
                lemma_skip_split(d@, 1, (left - 1) as nat);
            }
            match d.skip() {
                Ok(_) => {},
                Err(e) => {
                    return Err(e);
                },
            }
            left -= 1;
        }
        Ok(())
    }
}

} // verus!
