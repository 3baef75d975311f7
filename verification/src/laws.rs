//! What holds of the format as a whole: reading undoes writing, skipping
//! steps over exactly one value, readers reject wire types they do not
//! accept, and records can grow and shrink at their end.
//!
//! The laws are stated over the spec functions that the contracts of the
//! encoder and the decoder use, so each one speaks of what those methods do.

use crate::de::{
    lemma_skip_split, skip_items, spec_bool, spec_bytes, spec_char, spec_end, spec_fixed_bits,
    spec_header, spec_map, spec_option, spec_read_varint, spec_read_varint_128, spec_seq,
    spec_signed, spec_signed_128, spec_str, spec_tuple, spec_unsigned, spec_unsigned_128,
    spec_variant, FixedBits,
};
use crate::error::Error;
use crate::ser::{
    encode_bool, encode_bytes, encode_char, encode_fixed32, encode_fixed64, encode_signed,
    encode_unit, encode_unsigned, sequence_header, variant_header,
};
use crate::wire::{
    as_signed, le_bytes, lemma_le_round_trip, lemma_varint_round_trip, lemma_zigzag_inverse,
    lemma_zigzag_range, modulus_128, modulus_64, pow256, spec_wiretype, varint_bytes,
    varint_span, zigzag, WireType,
};
use vstd::arithmetic::div_mod::lemma_small_mod;
use vstd::prelude::*;
use vstd::utf8::{char_is_scalar, char_u32_cast, valid_utf8};

verus! {

/// A value as it stands on the wire, whatever it means to its writer.
pub enum Item {
    /// An integer, a `bool`, a `char` or a unit: an `Int` varint.
    Int(nat),
    /// Four bytes under `Fixed32`, given as the number they spell.
    Fixed32(u32),
    /// Eight bytes under `Fixed64`, given as the number they spell.
    Fixed64(u64),
    /// A record, a sequence or a map: a count and that many items.
    Sequence(Seq<Item>),
    /// A byte string or a string.
    Bytes(Seq<u8>),
    /// An enum variant or an option: a discriminant and one item.
    Variant(u32, Box<Item>),
}

/// The items that the format can hold: integers of at most 128 bits, and
/// counts of at most 64.
pub open spec fn well_formed(item: Item) -> bool
    decreases item,
{
    match item {
        Item::Int(value) => value <= u128::MAX,
        Item::Fixed32(_) => true,
        Item::Fixed64(_) => true,
        Item::Sequence(children) => children.len() <= u64::MAX && forall|i: int|
            0 <= i < children.len() ==> well_formed(#[trigger] children[i]),
        Item::Bytes(bytes) => bytes.len() <= u64::MAX,
        Item::Variant(_, child) => well_formed(*child),
    }
}

/// The bytes of an item: what the encoder writes for it.
pub open spec fn item_bytes(item: Item) -> Seq<u8>
    decreases item,
{
    match item {
        Item::Int(value) => encode_unsigned(value),
        Item::Fixed32(bits) => encode_fixed32(bits),
        Item::Fixed64(bits) => encode_fixed64(bits),
        Item::Sequence(children) => sequence_header(children.len()) + items_bytes(children),
        Item::Bytes(bytes) => encode_bytes(bytes),
        Item::Variant(index, child) => variant_header(index) + item_bytes(*child),
    }
}

/// The bytes of items that stand one after the other.
pub open spec fn items_bytes(items: Seq<Item>) -> Seq<u8>
    decreases items,
{
    if items.len() == 0 {
        Seq::<u8>::empty()
    } else {
        item_bytes(items[0]) + items_bytes(items.drop_first())
    }
}

/// Reading a 64-bit varint undoes writing it: the value comes back and the
/// cursor stands right after the varint's bytes.
pub proof fn law_varint_round_trip(wt: WireType, value: nat, after: Seq<u8>)
    requires
        value <= u64::MAX,
    ensures
        (varint_bytes(wt, value) + after).len() > 0,
        spec_wiretype((varint_bytes(wt, value) + after)[0]) == wt,
        spec_read_varint(
            (varint_bytes(wt, value) + after)[0],
            (varint_bytes(wt, value) + after).skip(1),
        ) == (Ok::<u64, Error>(value as u64), after),
        spec_header(varint_bytes(wt, value) + after, wt) == (Ok::<u64, Error>(value as u64), after),
{
    let bytes = varint_bytes(wt, value);
    let data = bytes.skip(1) + after;
    lemma_varint_round_trip(wt, value, after);
    assert((bytes + after)[0] == bytes[0]);
    assert((bytes + after).skip(1) =~= data);
    assert(data.skip(bytes.len() - 1) =~= after);
    lemma_small_mod(value, modulus_64());
}

/// Reading a 128-bit varint undoes writing it.
pub proof fn law_varint_round_trip_128(wt: WireType, value: nat, after: Seq<u8>)
    requires
        value <= u128::MAX,
    ensures
        (varint_bytes(wt, value) + after).len() > 0,
        spec_wiretype((varint_bytes(wt, value) + after)[0]) == wt,
        spec_read_varint_128(
            (varint_bytes(wt, value) + after)[0],
            (varint_bytes(wt, value) + after).skip(1),
        ) == (Ok::<u128, Error>(value as u128), after),
        varint_span(
            (varint_bytes(wt, value) + after)[0],
            (varint_bytes(wt, value) + after).skip(1),
            18,
        ) == Ok::<nat, Error>((varint_bytes(wt, value).len() - 1) as nat),
        (varint_bytes(wt, value) + after).skip(varint_bytes(wt, value).len() as int) == after,
{
    let bytes = varint_bytes(wt, value);
    let data = bytes.skip(1) + after;
    lemma_varint_round_trip(wt, value, after);
    assert((bytes + after)[0] == bytes[0]);
    assert((bytes + after).skip(1) =~= data);
    assert(data.skip(bytes.len() - 1) =~= after);
    assert((bytes + after).skip(bytes.len() as int) =~= after);
    lemma_small_mod(value, modulus_128());
}

/// Skip correctness, for one value: after the bytes of any item, whatever
/// follows, skipping one value leaves the cursor right after the item.
pub proof fn law_skip_item(item: Item, after: Seq<u8>)
    requires
        well_formed(item),
    ensures
        skip_items(item_bytes(item) + after, 1) == (Ok::<(), Error>(()), after),
    decreases item,
{
    let bytes = item_bytes(item);
    let input = bytes + after;
    assert(skip_items(after, 0) == (Ok::<(), Error>(()), after));
    match item {
        Item::Int(value) => {
            law_varint_round_trip_128(WireType::Int, value, after);
            let used = (bytes.len() - 1) as int;
            assert(input.skip(1).skip(used) =~= after);
        },
        Item::Fixed32(bits) => {
            lemma_le_round_trip(bits as nat, 4);
            assert(input[0] == 1u8);
            assert(input.skip(1).skip(4) =~= after);
        },
        Item::Fixed64(bits) => {
            lemma_le_round_trip(bits as nat, 8);
            assert(input[0] == 2u8);
            assert(input.skip(1).skip(8) =~= after);
        },
        Item::Sequence(children) => {
            let body = items_bytes(children) + after;
            assert(input =~= sequence_header(children.len()) + body);
            law_varint_round_trip(WireType::Sequence, children.len(), body);
            law_skip_items(children, after);
        },
        Item::Bytes(content) => {
            let body = content + after;
            assert(input =~= varint_bytes(WireType::Bytes, content.len()) + body);
            law_varint_round_trip(WireType::Bytes, content.len(), body);
            assert(body.skip(content.len() as int) =~= after);
        },
        Item::Variant(index, child) => {
            let body = item_bytes(*child) + after;
            assert(input =~= variant_header(index) + body);
            law_varint_round_trip(WireType::Variant, index as nat, body);
            law_skip_item(*child, after);
        },
    }
}

/// Skip correctness, for a run of values: skipping as many values as there
/// are items leaves the cursor right after the last. This is what lets a
/// reader drop the fields at the end of a record that it does not know: with
/// the fields it knows read, skipping the others brings it to the record's
/// end.
pub proof fn law_skip_items(items: Seq<Item>, after: Seq<u8>)
    requires
        forall|i: int| 0 <= i < items.len() ==> well_formed(#[trigger] items[i]),
    ensures
        skip_items(items_bytes(items) + after, items.len()) == (Ok::<(), Error>(()), after),
    decreases items,
{
    if items.len() == 0 {
        assert(items_bytes(items) + after =~= after);
    } else {
        let tail = items.drop_first();
        let then = items_bytes(tail) + after;
        let input = items_bytes(items) + after;
        assert(input =~= item_bytes(items[0]) + then);
        assert forall|i: int| 0 <= i < tail.len() implies well_formed(#[trigger] tail[i]) by {
            assert(tail[i] == items[i + 1]);
        }
        law_skip_item(items[0], then);
        law_skip_items(tail, after);
        lemma_skip_split(input, 1, tail.len());
    }
}

/// Byte stability: what the encoder appends for an item is the same bytes
/// whatever the sink held before, so two encodings of one value are equal
/// byte for byte.
pub proof fn law_byte_stability(item: Item, first_sink: Seq<u8>, second_sink: Seq<u8>)
    ensures
        (first_sink + item_bytes(item)).skip(first_sink.len() as int) == item_bytes(item),
        (second_sink + item_bytes(item)).skip(second_sink.len() as int) == item_bytes(item),
        (first_sink + item_bytes(item)).take(first_sink.len() as int) == first_sink,
{
    let bytes = item_bytes(item);
    assert((first_sink + bytes).skip(first_sink.len() as int) =~= bytes);
    assert((second_sink + bytes).skip(second_sink.len() as int) =~= bytes);
    assert((first_sink + bytes).take(first_sink.len() as int) =~= first_sink);
}

/// No trailing bytes: a buffer that holds one item is read to its end, and
/// a buffer that holds more is refused by the whole-buffer rule.
pub proof fn law_whole_buffer(item: Item, extra: Seq<u8>)
    requires
        well_formed(item),
    ensures
        skip_items(item_bytes(item) + extra, 1) == (Ok::<(), Error>(()), extra),
        extra.len() == 0 ==> spec_end(extra) == Ok::<(), Error>(()),
        extra.len() > 0 ==> spec_end(extra) == Err::<(), Error>(Error::DataBeyondEnd),
{
    law_skip_item(item, extra);
}

/// Round trip and widening of unsigned integers: an integer written by a
/// writer of any width is read back by a reader of any width that can hold
/// it, and refused as an overflow by a reader that cannot.
pub proof fn law_unsigned_round_trip(value: nat, max: nat, fixed_width: nat, after: Seq<u8>)
    requires
        value <= u64::MAX,
    ensures
        value <= max ==> spec_unsigned(encode_unsigned(value) + after, max, fixed_width) == (
            Ok::<nat, Error>(value),
            after,
        ),
        value > max ==> spec_unsigned(encode_unsigned(value) + after, max, fixed_width) == (
            Err::<nat, Error>(Error::ValueOverflow),
            after,
        ),
{
    law_varint_round_trip(WireType::Int, value, after);
}

/// Round trip and widening of signed integers: an integer written by a
/// writer of any width is read back by a reader of any width that can hold
/// it, and refused as an overflow by a reader that cannot.
pub proof fn law_signed_round_trip(value: int, min: int, max: int, fixed_width: nat, after: Seq<u8>)
    requires
        i64::MIN <= value <= i64::MAX,
    ensures
        min <= value <= max ==> spec_signed(encode_signed(value) + after, min, max, fixed_width)
            == (Ok::<int, Error>(value), after),
        !(min <= value <= max) ==> spec_signed(encode_signed(value) + after, min, max, fixed_width)
            == (Err::<int, Error>(Error::ValueOverflow), after),
{
    lemma_zigzag_range(value);
    lemma_zigzag_inverse(value, 0);
    law_varint_round_trip(WireType::Int, zigzag(value), after);
}

/// Round trip of 128-bit integers, unsigned and signed.
pub proof fn law_round_trip_128(unsigned: nat, signed: int, after: Seq<u8>)
    requires
        unsigned <= u128::MAX,
        i128::MIN <= signed <= i128::MAX,
    ensures
        spec_unsigned_128(encode_unsigned(unsigned) + after) == (
            Ok::<u128, Error>(unsigned as u128),
            after,
        ),
        spec_signed_128(encode_signed(signed) + after) == (Ok::<int, Error>(signed), after),
{
    law_varint_round_trip_128(WireType::Int, unsigned, after);
    lemma_zigzag_range(signed);
    lemma_zigzag_inverse(signed, 0);
    law_varint_round_trip_128(WireType::Int, zigzag(signed), after);
}

/// Round trip of fixed-width values: the bits come back, to a reader of
/// fixed-width values and to a reader of integers of the same width, signed
/// or unsigned.
pub proof fn law_fixed_round_trip(bits32: u32, bits64: u64, after: Seq<u8>)
    ensures
        spec_fixed_bits(encode_fixed32(bits32) + after) == (
            Ok::<FixedBits, Error>(FixedBits::Bits32(bits32)),
            after,
        ),
        spec_fixed_bits(encode_fixed64(bits64) + after) == (
            Ok::<FixedBits, Error>(FixedBits::Bits64(bits64)),
            after,
        ),
        spec_unsigned(encode_fixed32(bits32) + after, u32::MAX as nat, 4) == (
            Ok::<nat, Error>(bits32 as nat),
            after,
        ),
        spec_unsigned(encode_fixed64(bits64) + after, u64::MAX as nat, 8) == (
            Ok::<nat, Error>(bits64 as nat),
            after,
        ),
        spec_signed(encode_fixed32(bits32) + after, i32::MIN as int, i32::MAX as int, 4) == (
            Ok::<int, Error>(as_signed(bits32 as nat, 0x1_0000_0000)),
            after,
        ),
        spec_signed(encode_fixed64(bits64) + after, i64::MIN as int, i64::MAX as int, 8) == (
            Ok::<int, Error>(as_signed(bits64 as nat, modulus_64())),
            after,
        ),
{
    let in32 = encode_fixed32(bits32) + after;
    let in64 = encode_fixed64(bits64) + after;
    lemma_le_round_trip(bits32 as nat, 4);
    lemma_le_round_trip(bits64 as nat, 8);
    assert(pow256(4) == 0x1_0000_0000 && pow256(8) == 0x1_0000_0000_0000_0000) by {
        reveal_with_fuel(pow256, 9);
    }
    assert(in32[0] == 1u8 && in64[0] == 2u8);
    assert(in32.skip(1) =~= le_bytes(bits32 as nat, 4) + after);
    assert(in64.skip(1) =~= le_bytes(bits64 as nat, 8) + after);
    assert(in32.skip(1).take(4) =~= le_bytes(bits32 as nat, 4));
    assert(in64.skip(1).take(8) =~= le_bytes(bits64 as nat, 8));
    assert(in32.skip(1).skip(4) =~= after);
    assert(in64.skip(1).skip(8) =~= after);
}

/// Round trip of `bool`, and `bool` against integers: `false` and `true`
/// are read as 0 and 1 by a reader of unsigned integers, and an integer is
/// read as `true` by a reader of `bool` exactly if it is not zero.
pub proof fn law_bool_round_trip(value: bool, number: nat, max: nat, after: Seq<u8>)
    requires
        number <= u64::MAX,
        max >= 1,
    ensures
        spec_bool(encode_bool(value) + after) == (Ok::<bool, Error>(value), after),
        spec_unsigned(encode_bool(value) + after, max, 0) == (
            Ok::<nat, Error>(
                if value {
                    1nat
                } else {
                    0nat
                },
            ),
            after,
        ),
        spec_bool(encode_unsigned(number) + after) == (Ok::<bool, Error>(number != 0), after),
{
    law_varint_round_trip(WireType::Int, 0, after);
    law_varint_round_trip(WireType::Int, 1, after);
    law_varint_round_trip(WireType::Int, number, after);
}

/// Round trip of `char`.
pub proof fn law_char_round_trip(value: char, after: Seq<u8>)
    ensures
        spec_char(encode_char(value) + after) == (Ok::<char, Error>(value), after),
{
    char_is_scalar(value);
    char_u32_cast(value, value as u32);
    law_varint_round_trip(WireType::Int, value as nat, after);
}

/// Round trip of byte strings and strings, and one against the other: the
/// bytes come back to a reader of byte strings, and to a reader of strings
/// exactly if they are valid UTF-8.
pub proof fn law_bytes_round_trip(bytes: Seq<u8>, after: Seq<u8>)
    requires
        bytes.len() <= u64::MAX,
    ensures
        spec_bytes(encode_bytes(bytes) + after) == (Ok::<Seq<u8>, Error>(bytes), after),
        valid_utf8(bytes) ==> spec_str(encode_bytes(bytes) + after) == (
            Ok::<Seq<u8>, Error>(bytes),
            after,
        ),
        !valid_utf8(bytes) ==> spec_str(encode_bytes(bytes) + after) == (
            Err::<Seq<u8>, Error>(Error::InvalidUtf8),
            after,
        ),
{
    let body = bytes + after;
    assert(encode_bytes(bytes) + after =~= varint_bytes(WireType::Bytes, bytes.len()) + body);
    law_varint_round_trip(WireType::Bytes, bytes.len(), body);
    assert(body.take(bytes.len() as int) =~= bytes);
    assert(body.skip(bytes.len() as int) =~= after);
}

/// A unit on the wire: any reader of units steps over it, a reader of `bool`
/// takes it for `false` and a reader of integers for zero. A reader of units
/// steps over any other item as well.
pub proof fn law_unit(item: Item, after: Seq<u8>)
    requires
        well_formed(item),
    ensures
        encode_unit() == seq![0u8],
        skip_items(encode_unit() + after, 1) == (Ok::<(), Error>(()), after),
        spec_bool(encode_unit() + after) == (Ok::<bool, Error>(false), after),
        spec_unsigned(encode_unit() + after, 0, 0) == (Ok::<nat, Error>(0nat), after),
        spec_signed(encode_unit() + after, 0, 0, 0) == (Ok::<int, Error>(0int), after),
        skip_items(item_bytes(item) + after, 1) == (Ok::<(), Error>(()), after),
{
    law_skip_item(Item::Int(0), after);
    law_skip_item(item, after);
    law_varint_round_trip(WireType::Int, 0, after);
    law_signed_round_trip(0, 0, 0, 0, after);
    assert(varint_bytes(WireType::Int, 0) =~= seq![0u8]);
}

/// Round trip of options: none comes back as none, with the cursor after
/// the placeholder, and some comes back as some, with the cursor at the
/// value.
pub proof fn law_option_round_trip(after: Seq<u8>)
    ensures
        spec_option(variant_header(0) + encode_unit() + after) == (Ok::<bool, Error>(false), after),
        spec_option(variant_header(1) + after) == (Ok::<bool, Error>(true), after),
{
    let placeholder = encode_unit() + after;
    assert(variant_header(0) + encode_unit() + after =~= variant_header(0) + placeholder);
    law_varint_round_trip(WireType::Variant, 0, placeholder);
    law_varint_round_trip(WireType::Variant, 1, after);
    law_skip_item(Item::Int(0), after);
}

/// Records across versions: a record written with `len` fields, as a tuple,
/// a tuple struct or a struct, is opened by a reader that expects `declared`
/// fields. The reader is shown the smaller number: where the record is
/// longer, the fields at its end are left to be skipped; where it is shorter,
/// the reader finds it at its end and fills in the rest itself.
pub proof fn law_record_header(len: nat, declared: nat, after: Seq<u8>)
    requires
        len <= u64::MAX,
    ensures
        spec_tuple(sequence_header(len) + after, declared) == (
            Ok::<(nat, nat), Error>(
                (
                    len,
                    if len <= declared {
                        len
                    } else {
                        declared
                    },
                ),
            ),
            after,
        ),
        spec_seq(sequence_header(len) + after) == (Ok::<(nat, nat), Error>((len, len)), after),
{
    law_varint_round_trip(WireType::Sequence, len, after);
}

/// The bytes of two runs of items, one after the other, are the bytes of
/// the one run that they form.
pub proof fn lemma_items_concat(first: Seq<Item>, second: Seq<Item>)
    ensures
        items_bytes(first + second) == items_bytes(first) + items_bytes(second),
    decreases first.len(),
{
    if first.len() == 0 {
        assert(first + second =~= second);
        assert(items_bytes(first) + items_bytes(second) =~= items_bytes(second));
    } else {
        let whole = first + second;
        assert(whole[0] == first[0]);
        assert(whole.drop_first() =~= first.drop_first() + second);
        lemma_items_concat(first.drop_first(), second);
        assert(items_bytes(whole) =~= items_bytes(first) + items_bytes(second));
    }
}

/// A record across versions, as a whole. A record written with any fields
/// is opened by a reader that expects `declared` of them. The reader is
/// shown the smaller number, and the fields it is shown stand first. Once it
/// has read those, the fields it does not know are all that is left of the
/// record, and skipping them, which is what `SeqRead::finish` does, leaves
/// the cursor right after the record. Where the record is the shorter one,
/// nothing is left to skip and the reader is told that the record has ended.
pub proof fn law_record_across_versions(fields: Seq<Item>, declared: nat, after: Seq<u8>)
    requires
        fields.len() <= u64::MAX,
        forall|i: int| 0 <= i < fields.len() ==> well_formed(#[trigger] fields[i]),
    ensures
        ({
            let shown = if fields.len() <= declared {
                fields.len()
            } else {
                declared
            };
            let known = items_bytes(fields.take(shown as int));
            let unknown = items_bytes(fields.skip(shown as int));
            &&& spec_tuple(item_bytes(Item::Sequence(fields)) + after, declared) == (
                Ok::<(nat, nat), Error>((fields.len(), shown)),
                known + unknown + after,
            )
            &&& skip_items(unknown + after, (fields.len() - shown) as nat) == (
                Ok::<(), Error>(()),
                after,
            )
        }),
{
    let shown = if fields.len() <= declared {
        fields.len()
    } else {
        declared
    };
    let head = fields.take(shown as int);
    let tail = fields.skip(shown as int);
    assert(head + tail =~= fields);
    lemma_items_concat(head, tail);
    let body = items_bytes(fields) + after;
    assert(item_bytes(Item::Sequence(fields)) + after =~= sequence_header(fields.len()) + body);
    assert(body =~= items_bytes(head) + items_bytes(tail) + after);
    law_varint_round_trip(WireType::Sequence, fields.len(), body);
    assert forall|i: int| 0 <= i < tail.len() implies well_formed(#[trigger] tail[i]) by {
        assert(tail[i] == fields[i + shown]);
    }
    law_skip_items(tail, after);
}

/// A tuple or struct variant across versions: the discriminant comes back,
/// and what follows it is a record, to which `law_record_across_versions`
/// applies.
pub proof fn law_variant_record(index: u32, fields: Seq<Item>, after: Seq<u8>)
    requires
        fields.len() <= u64::MAX,
    ensures
        spec_variant(item_bytes(Item::Variant(index, Box::new(Item::Sequence(fields)))) + after)
            == (Ok::<u32, Error>(index), item_bytes(Item::Sequence(fields)) + after),
{
    let record = item_bytes(Item::Sequence(fields)) + after;
    assert(item_bytes(Item::Variant(index, Box::new(Item::Sequence(fields)))) + after
        =~= variant_header(index) + record);
    law_varint_round_trip(WireType::Variant, index as nat, record);
}

/// Maps: a map written with `entries` entries is opened as that many
/// entries, and a sequence with an odd count is no map.
pub proof fn law_map_header(entries: nat, count: nat, after: Seq<u8>)
    requires
        2 * entries <= u64::MAX,
        count <= u64::MAX,
    ensures
        spec_map(sequence_header(2 * entries) + after) == (
            Ok::<(nat, nat), Error>((2 * entries, entries)),
            after,
        ),
        count % 2 == 1 ==> spec_map(sequence_header(count) + after) == (
            Err::<(nat, nat), Error>(Error::InvalidMap),
            after,
        ),
{
    law_varint_round_trip(WireType::Sequence, 2 * entries, after);
    law_varint_round_trip(WireType::Sequence, count, after);
}

/// Variants: the discriminant that was written comes back, with the cursor
/// at the variant's one value. A reader that does not know the discriminant
/// can step over that value, whatever it is.
pub proof fn law_variant_header(index: u32, child: Item, after: Seq<u8>)
    requires
        well_formed(child),
    ensures
        spec_variant(variant_header(index) + item_bytes(child) + after) == (
            Ok::<u32, Error>(index),
            item_bytes(child) + after,
        ),
        skip_items(item_bytes(child) + after, 1) == (Ok::<(), Error>(()), after),
{
    let body = item_bytes(child) + after;
    assert(variant_header(index) + item_bytes(child) + after =~= variant_header(index) + body);
    law_varint_round_trip(WireType::Variant, index as nat, body);
    law_skip_item(child, after);
}

/// Wire-type discipline: a reader that meets a tag byte whose wire type it
/// does not accept reports an unexpected wire type, with the cursor right
/// after the tag byte: nothing of the value has been taken.
pub proof fn law_wire_type_discipline(input: Seq<u8>, max: nat, min: int, top: int, declared: nat)
    requires
        input.len() > 0,
    ensures
        ({
            let wt = spec_wiretype(input[0]);
            let refused = (Error::UnexpectedWireType, input.skip(1));
            &&& wt != WireType::Int ==> {
                &&& spec_unsigned(input, max, 0) == (Err::<nat, Error>(refused.0), refused.1)
                &&& spec_signed(input, min, top, 0) == (Err::<int, Error>(refused.0), refused.1)
                &&& spec_unsigned_128(input) == (Err::<u128, Error>(refused.0), refused.1)
                &&& spec_signed_128(input) == (Err::<int, Error>(refused.0), refused.1)
            }
            &&& wt != WireType::Int && wt != WireType::Fixed32 ==> {
                &&& spec_unsigned(input, max, 4) == (Err::<nat, Error>(refused.0), refused.1)
                &&& spec_signed(input, min, top, 4) == (Err::<int, Error>(refused.0), refused.1)
                &&& spec_char(input) == (Err::<char, Error>(refused.0), refused.1)
            }
            &&& wt != WireType::Int && wt != WireType::Fixed64 ==> {
                &&& spec_unsigned(input, max, 8) == (Err::<nat, Error>(refused.0), refused.1)
                &&& spec_signed(input, min, top, 8) == (Err::<int, Error>(refused.0), refused.1)
                &&& spec_bool(input) == (Err::<bool, Error>(refused.0), refused.1)
            }
            &&& wt != WireType::Fixed32 && wt != WireType::Fixed64 ==> spec_fixed_bits(input) == (
                Err::<FixedBits, Error>(refused.0),
                refused.1,
            )
            &&& wt != WireType::Bytes ==> {
                &&& spec_bytes(input) == (Err::<Seq<u8>, Error>(refused.0), refused.1)
                &&& spec_str(input) == (Err::<Seq<u8>, Error>(refused.0), refused.1)
            }
            &&& wt != WireType::Sequence ==> {
                &&& spec_tuple(input, declared) == (Err::<(nat, nat), Error>(refused.0), refused.1)
                &&& spec_seq(input) == (Err::<(nat, nat), Error>(refused.0), refused.1)
                &&& spec_map(input) == (Err::<(nat, nat), Error>(refused.0), refused.1)
            }
            &&& wt != WireType::Variant ==> {
                &&& spec_option(input) == (Err::<bool, Error>(refused.0), refused.1)
                &&& spec_variant(input) == (Err::<u32, Error>(refused.0), refused.1)
            }
            &&& (wt == WireType::_Reserved1 || wt == WireType::_Reserved2) ==> skip_items(input, 1)
                == (Err::<(), Error>(refused.0), refused.1)
        }),
{
}

} // verus!
