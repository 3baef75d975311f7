use fcode::de::SeqRead;
use fcode::{Deserializer, Error, Serializer};

// Records of `i32` fields, written and read field by field. A reader names
// how many fields it expects and how many of them it cannot do without; the
// others get their default, zero, where the record on the wire ends early.

fn write_record(s: Serializer, fields: &[i32]) -> Result<(), Error> {
    let mut record = s.serialize_struct(fields.len())?;
    for field in fields {
        record.element().serialize_i32(*field)?;
    }
    record.end()
}

fn write_tuple(s: Serializer, fields: &[i32]) -> Result<(), Error> {
    let mut record = s.serialize_tuple(fields.len())?;
    for field in fields {
        record.element().serialize_i32(*field)?;
    }
    record.end()
}

fn write_tuple_struct(s: Serializer, fields: &[i32]) -> Result<(), Error> {
    let mut record = s.serialize_tuple_struct(fields.len())?;
    for field in fields {
        record.element().serialize_i32(*field)?;
    }
    record.end()
}

fn read_fields(
    d: &mut Deserializer,
    mut reader: SeqRead,
    declared: usize,
    required: usize,
) -> Result<Vec<i32>, Error> {
    let mut fields = Vec::new();
    for position in 0..declared {
        if reader.next_element() {
            match d.deserialize_i32() {
                Ok(field) => fields.push(field),
                Err(e) => {
                    let _ = reader.finish(d);
                    return Err(e);
                }
            }
        } else if position < required {
            let _ = reader.finish(d);
            return Err(Error::Deserialization(format!("invalid length {}", position)));
        } else {
            fields.push(0);
        }
    }
    reader.finish(d)?;
    Ok(fields)
}

fn read_record(d: &mut Deserializer, declared: usize, required: usize) -> Result<Vec<i32>, Error> {
    let reader = d.deserialize_tuple(declared)?;
    read_fields(d, reader, declared, required)
}

#[derive(Debug, Clone, Default, PartialEq, Eq)]
struct LongStruct {
    x: i32,
    y: i32,
    z: i32,
}

#[derive(Debug, PartialEq, Eq, Clone)]
struct ShortStruct {
    x: i32,
    y: i32,
}

fn shorten(v: LongStruct) -> ShortStruct {
    ShortStruct { x: v.x, y: v.y }
}

fn write_long_structs(buf: &mut Vec<u8>, values: &[LongStruct]) {
    let mut seq = Serializer::new(buf).serialize_seq(Some(values.len())).unwrap();
    for v in values {
        write_record(seq.element(), &[v.x, v.y, v.z]).unwrap();
    }
    seq.end().unwrap();
}

fn write_short_structs(buf: &mut Vec<u8>, values: &[ShortStruct]) {
    let mut seq = Serializer::new(buf).serialize_seq(Some(values.len())).unwrap();
    for v in values {
        write_record(seq.element(), &[v.x, v.y]).unwrap();
    }
    seq.end().unwrap();
}

fn read_long_structs(buf: &[u8]) -> Result<Vec<LongStruct>, Error> {
    let mut d = Deserializer::from_bytes(buf);
    let mut seq = d.deserialize_seq()?;
    let mut out = Vec::new();
    while seq.next_element() {
        let f = read_record(&mut d, 3, 2)?;
        out.push(LongStruct { x: f[0], y: f[1], z: f[2] });
    }
    seq.finish(&mut d)?;
    d.end()?;
    Ok(out)
}

fn read_short_structs(buf: &[u8]) -> Result<Vec<ShortStruct>, Error> {
    let mut d = Deserializer::from_bytes(buf);
    let mut seq = d.deserialize_seq()?;
    let mut out = Vec::new();
    while seq.next_element() {
        let f = read_record(&mut d, 2, 2)?;
        out.push(ShortStruct { x: f[0], y: f[1] });
    }
    seq.finish(&mut d)?;
    d.end()?;
    Ok(out)
}

#[test]
fn test_long_struct_to_short() {
    let src = vec![
        LongStruct { x: 1, y: 2, z: 3 },
        LongStruct { x: 4, y: 5, z: 6 },
        LongStruct { x: 7, y: 8, z: 9 },
    ];
    let mut buf = Vec::new();
    write_long_structs(&mut buf, &src);
    let dest: Vec<ShortStruct> = read_short_structs(&buf).unwrap();
    let expected: Vec<ShortStruct> = src.into_iter().map(shorten).collect();
    assert_eq!(dest, expected);
}

#[test]
fn test_short_struct_to_long() {
    let expected = vec![
        LongStruct { x: 1, y: 2, ..Default::default() },
        LongStruct { x: 4, y: 5, ..Default::default() },
        LongStruct { x: 7, y: 8, ..Default::default() },
    ];
    let src: Vec<ShortStruct> = expected.iter().cloned().map(shorten).collect();
    let mut buf = Vec::new();
    write_short_structs(&mut buf, &src);
    let dest: Vec<LongStruct> = read_long_structs(&buf).unwrap();
    assert_eq!(dest, expected);
}

#[derive(Debug, Clone, Default, PartialEq, Eq)]
struct LongTuple(i32, i32, i32);

#[derive(Debug, PartialEq, Eq, Clone)]
struct ShortTuple(i32, i32);

fn shorten_tuple(v: LongTuple) -> ShortTuple {
    ShortTuple(v.0, v.1)
}

fn write_long_tuples(buf: &mut Vec<u8>, values: &[LongTuple]) {
    let mut seq = Serializer::new(buf).serialize_seq(Some(values.len())).unwrap();
    for v in values {
        write_tuple_struct(seq.element(), &[v.0, v.1, v.2]).unwrap();
    }
    seq.end().unwrap();
}

fn write_short_tuples(buf: &mut Vec<u8>, values: &[ShortTuple]) {
    let mut seq = Serializer::new(buf).serialize_seq(Some(values.len())).unwrap();
    for v in values {
        write_tuple_struct(seq.element(), &[v.0, v.1]).unwrap();
    }
    seq.end().unwrap();
}

fn read_long_tuples(buf: &[u8]) -> Result<Vec<LongTuple>, Error> {
    let mut d = Deserializer::from_bytes(buf);
    let mut seq = d.deserialize_seq()?;
    let mut out = Vec::new();
    while seq.next_element() {
        let f = read_record(&mut d, 3, 2)?;
        out.push(LongTuple(f[0], f[1], f[2]));
    }
    seq.finish(&mut d)?;
    d.end()?;
    Ok(out)
}

fn read_short_tuples(buf: &[u8]) -> Result<Vec<ShortTuple>, Error> {
    let mut d = Deserializer::from_bytes(buf);
    let mut seq = d.deserialize_seq()?;
    let mut out = Vec::new();
    while seq.next_element() {
        let f = read_record(&mut d, 2, 2)?;
        out.push(ShortTuple(f[0], f[1]));
    }
    seq.finish(&mut d)?;
    d.end()?;
    Ok(out)
}

#[test]
fn test_long_tuple_to_short() {
    let src = vec![LongTuple(1, 2, 3), LongTuple(4, 5, 6), LongTuple(7, 8, 9)];
    let mut buf = Vec::new();
    write_long_tuples(&mut buf, &src);
    let dest: Vec<ShortTuple> = read_short_tuples(&buf).unwrap();
    let expected: Vec<ShortTuple> = src.into_iter().map(shorten_tuple).collect();
    assert_eq!(dest, expected);
}

#[test]
fn test_short_tuple_to_long() {
    let expected = vec![LongTuple(1, 2, 0), LongTuple(4, 5, 0), LongTuple(7, 8, 0)];
    let src: Vec<ShortTuple> = expected.iter().cloned().map(shorten_tuple).collect();
    let mut buf = Vec::new();
    write_short_tuples(&mut buf, &src);
    let dest: Vec<LongTuple> = read_long_tuples(&buf).unwrap();
    assert_eq!(dest, expected);
}

#[test]
fn anonymous_tuple_to_named() {
    let expected = vec![LongTuple(1, 2, 0), LongTuple(4, 5, 0), LongTuple(7, 8, 0)];
    let src: Vec<(i32, i32)> = expected.iter().cloned().map(|LongTuple(x, y, _)| (x, y)).collect();
    let mut buf = Vec::new();
    let mut seq = Serializer::new(&mut buf).serialize_seq(Some(src.len())).unwrap();
    for (x, y) in &src {
        write_tuple(seq.element(), &[*x, *y]).unwrap();
    }
    seq.end().unwrap();
    let dest: Vec<LongTuple> = read_long_tuples(&buf).unwrap();
    assert_eq!(dest, expected);
}

#[test]
fn tuple_to_struct() {
    let expected = vec![
        LongStruct { x: 1, y: 2, ..Default::default() },
        LongStruct { x: 4, y: 5, ..Default::default() },
        LongStruct { x: 7, y: 8, ..Default::default() },
    ];
    let src: Vec<ShortTuple> = expected.iter().cloned().map(|v| ShortTuple(v.x, v.y)).collect();
    let mut buf = Vec::new();
    write_short_tuples(&mut buf, &src);
    let dest: Vec<LongStruct> = read_long_structs(&buf).unwrap();
    assert_eq!(dest, expected);
}

#[derive(PartialEq, Eq, Clone, Debug)]
struct Two(i32, i32);

#[derive(PartialEq, Eq, Clone, Debug)]
struct Wrapped(Two);

#[test]
fn type_to_newtype() {
    let src = vec![Two(1, 2), Two(3, 4), Two(5, 6)];
    let mut buf = Vec::new();
    let mut seq = Serializer::new(&mut buf).serialize_seq(Some(src.len())).unwrap();
    for v in &src {
        write_tuple_struct(seq.element(), &[v.0, v.1]).unwrap();
    }
    seq.end().unwrap();

    // the reader's newtype is transparent: it reads what it wraps
    let mut d = Deserializer::from_bytes(&buf);
    let mut reader = d.deserialize_seq().unwrap();
    let mut dest = Vec::new();
    while reader.next_element() {
        let f = read_record(&mut d, 2, 2).unwrap();
        dest.push(Wrapped(Two(f[0], f[1])));
    }
    reader.finish(&mut d).unwrap();
    d.end().unwrap();
    let expected: Vec<Wrapped> = src.iter().cloned().map(Wrapped).collect();
    assert_eq!(dest, expected);

    // and the other way round: the writer's newtype adds nothing
    let mut wrapped = Vec::new();
    let mut seq = Serializer::new(&mut wrapped).serialize_seq(Some(src.len())).unwrap();
    for v in &src {
        let inner = seq.element().serialize_newtype_struct().unwrap();
        write_tuple_struct(inner, &[v.0, v.1]).unwrap();
    }
    seq.end().unwrap();
    assert_eq!(wrapped, buf);
}

#[test]
fn newtype_cannot_grow_into_a_tuple() {
    // a wrapped integer is written as the integer, so a reader that expects
    // a record of two finds no record at all
    let mut buf = Vec::new();
    Serializer::new(&mut buf).serialize_newtype_struct().unwrap().serialize_i32(5).unwrap();
    assert_eq!(buf, vec![0x50]);
    let mut d = Deserializer::from_bytes(&buf);
    assert!(matches!(read_record(&mut d, 2, 1), Err(Error::UnexpectedWireType)));
}

#[test]
fn bytes_read_so_far() {
    let mut buf = Vec::new();
    write_record(Serializer::new(&mut buf), &[1, 2, 3]).unwrap();
    let written = buf.len();
    buf.extend_from_slice(&[0xAA, 0xBB]);
    let mut d = Deserializer::from_bytes(&buf);
    assert_eq!(d.consumed(buf.len()), 0);
    assert_eq!(read_record(&mut d, 3, 3).unwrap(), vec![1, 2, 3]);
    assert_eq!(d.consumed(buf.len()), written);
    assert_eq!(d.remaining_len(), 2);
}

// Enums with one variant, index 0, that holds a record.

fn write_variant_records(buf: &mut Vec<u8>, values: &[Vec<i32>], as_struct: bool) {
    let mut seq = Serializer::new(buf).serialize_seq(Some(values.len())).unwrap();
    for fields in values {
        let mut variant = if as_struct {
            seq.element().serialize_struct_variant(0, fields.len()).unwrap()
        } else {
            seq.element().serialize_tuple_variant(0, fields.len()).unwrap()
        };
        for field in fields {
            variant.element().serialize_i32(*field).unwrap();
        }
        variant.end().unwrap();
    }
    seq.end().unwrap();
}

fn unknown_variant(index: u32) -> Error {
    Error::Deserialization(format!("invalid value: integer `{}`, expected variant index", index))
}

fn read_variant_records(
    buf: &[u8],
    declared: usize,
    required: usize,
    newtype: bool,
) -> Result<Vec<Vec<i32>>, Error> {
    let mut d = Deserializer::from_bytes(buf);
    let mut seq = d.deserialize_seq()?;
    let mut out = Vec::new();
    while seq.next_element() {
        let (index, mut variant) = d.deserialize_variant()?;
        if index != 0 {
            let _ = variant.finish(&mut d);
            return Err(unknown_variant(index));
        }
        let fields = if newtype {
            // a newtype variant around a record: the record is the value
            variant.newtype_variant();
            read_record(&mut d, declared, required)?
        } else {
            let reader = variant.tuple_variant(&mut d, declared)?;
            read_fields(&mut d, reader, declared, required)?
        };
        variant.finish(&mut d)?;
        out.push(fields);
    }
    seq.finish(&mut d)?;
    d.end()?;
    Ok(out)
}

#[test]
fn extend_struct_variant() {
    let short = vec![vec![1, 2], vec![4, 5], vec![7, 8]];
    let long: Vec<Vec<i32>> = short.iter().map(|f| vec![f[0], f[1], 0]).collect();

    let mut buf = Vec::new();
    write_variant_records(&mut buf, &long, true);
    let dest = read_variant_records(&buf, 2, 2, false).unwrap();
    assert_eq!(dest, short);

    let mut buf = Vec::new();
    write_variant_records(&mut buf, &short, true);
    let dest = read_variant_records(&buf, 3, 2, false).unwrap();
    assert_eq!(dest, long);
}

#[test]
fn tuple_variant_to_struct() {
    let src = vec![vec![1, 2], vec![3, 4], vec![5, 6]];
    let mut as_tuple = Vec::new();
    write_variant_records(&mut as_tuple, &src, false);
    let mut as_struct = Vec::new();
    write_variant_records(&mut as_struct, &src, true);
    assert_eq!(as_tuple, as_struct);
    let dest = read_variant_records(&as_tuple, 2, 2, false).unwrap();
    assert_eq!(dest, src);
}

#[test]
fn struct_variant_to_newtype_struct() {
    let src = vec![vec![1, 2], vec![3, 4], vec![5, 6]];
    let mut buf = Vec::new();
    write_variant_records(&mut buf, &src, true);
    let dest = read_variant_records(&buf, 2, 2, true).unwrap();
    assert_eq!(dest, src);
}

#[test]
fn tuple_variant_to_newtype_tuple() {
    let src = vec![vec![1, 2], vec![3, 4], vec![5, 6]];
    let mut buf = Vec::new();
    write_variant_records(&mut buf, &src, false);
    let dest = read_variant_records(&buf, 2, 2, true).unwrap();
    assert_eq!(dest, src);
}

#[derive(PartialEq, Eq, Clone, Debug)]
enum Newer {
    X(i32),
    Y(i64),
    Z(String),
}

#[derive(PartialEq, Eq, Clone, Debug)]
enum Older {
    X(i32),
    Y(i64),
}

#[derive(PartialEq, Eq, Clone, Debug)]
enum OlderWithOther {
    X(i32),
    Y(i64),
    Other,
}

fn write_newer(s: Serializer, v: &Newer) -> Result<(), Error> {
    match v {
        Newer::X(a) => s.serialize_newtype_variant(0)?.serialize_i32(*a),
        Newer::Y(a) => s.serialize_newtype_variant(1)?.serialize_i64(*a),
        Newer::Z(a) => s.serialize_newtype_variant(2)?.serialize_str(a),
    }
}

fn write_older(s: Serializer, v: &Older) -> Result<(), Error> {
    match v {
        Older::X(a) => s.serialize_newtype_variant(0)?.serialize_i32(*a),
        Older::Y(a) => s.serialize_newtype_variant(1)?.serialize_i64(*a),
    }
}

fn read_newer(d: &mut Deserializer) -> Result<Newer, Error> {
    let (index, mut variant) = d.deserialize_variant()?;
    let value = match index {
        0 => {
            variant.newtype_variant();
            d.deserialize_i32().map(Newer::X)
        }
        1 => {
            variant.newtype_variant();
            d.deserialize_i64().map(Newer::Y)
        }
        2 => {
            variant.newtype_variant();
            d.deserialize_str().map(|s| Newer::Z(s.to_string()))
        }
        other => Err(unknown_variant(other)),
    };
    let _ = variant.finish(d);
    value
}

fn read_older(d: &mut Deserializer) -> Result<Older, Error> {
    let (index, mut variant) = d.deserialize_variant()?;
    let value = match index {
        0 => {
            variant.newtype_variant();
            d.deserialize_i32().map(Older::X)
        }
        1 => {
            variant.newtype_variant();
            d.deserialize_i64().map(Older::Y)
        }
        other => Err(unknown_variant(other)),
    };
    let _ = variant.finish(d);
    value
}

fn read_older_with_other(d: &mut Deserializer) -> Result<OlderWithOther, Error> {
    let (index, mut variant) = d.deserialize_variant()?;
    let value = match index {
        0 => {
            variant.newtype_variant();
            d.deserialize_i32().map(OlderWithOther::X)
        }
        1 => {
            variant.newtype_variant();
            d.deserialize_i64().map(OlderWithOther::Y)
        }
        _ => return variant.unit_variant(d).map(|_| OlderWithOther::Other),
    };
    let _ = variant.finish(d);
    value
}

#[test]
fn extend_enum() {
    let src = vec![Older::X(42), Older::Y(43)];
    let mut buf = Vec::new();
    let mut seq = Serializer::new(&mut buf).serialize_seq(Some(src.len())).unwrap();
    for v in &src {
        write_older(seq.element(), v).unwrap();
    }
    seq.end().unwrap();
    let mut d = Deserializer::from_bytes(&buf);
    let mut reader = d.deserialize_seq().unwrap();
    let mut dest = Vec::new();
    while reader.next_element() {
        dest.push(read_newer(&mut d).unwrap());
    }
    reader.finish(&mut d).unwrap();
    d.end().unwrap();
    assert_eq!(dest, vec![Newer::X(42), Newer::Y(43)]);

    // but vice versa should throw
    let src = Newer::Z("foobar".into());
    let mut buf = Vec::new();
    write_newer(Serializer::new(&mut buf), &src).unwrap();
    let mut d = Deserializer::from_bytes(&buf);
    let maybe_dest: Result<Older, Error> = read_older(&mut d);
    assert!(maybe_dest.is_err());
    assert!(matches!(maybe_dest, Err(Error::Deserialization(_))));
    // the variant that was not read has been stepped over all the same
    assert_eq!(d.remaining_len(), 0);
}

#[test]
fn extend_enum_with_other() {
    let src = vec![Newer::X(42), Newer::Y(43), Newer::Z("foobar".into())];
    let mut buf = Vec::new();
    let mut seq = Serializer::new(&mut buf).serialize_seq(Some(src.len())).unwrap();
    for v in &src {
        write_newer(seq.element(), v).unwrap();
    }
    seq.end().unwrap();
    let mut d = Deserializer::from_bytes(&buf);
    let mut reader = d.deserialize_seq().unwrap();
    let mut dest = Vec::new();
    while reader.next_element() {
        dest.push(read_older_with_other(&mut d).unwrap());
    }
    reader.finish(&mut d).unwrap();
    d.end().unwrap();
    assert_eq!(dest, vec![OlderWithOther::X(42), OlderWithOther::Y(43), OlderWithOther::Other]);
}

// The literal byte sequences of the format.

#[test]
fn bytes_of_42() {
    let mut buf = Vec::new();
    Serializer::new(&mut buf).serialize_i32(42).unwrap();
    assert_eq!(buf, vec![0xA0, 0x05]);
    let mut d = Deserializer::from_bytes(&buf);
    assert_eq!(d.deserialize_i32().unwrap(), 42);
    d.end().unwrap();
}

#[test]
fn bytes_of_unit() {
    let mut buf = Vec::new();
    Serializer::new(&mut buf).serialize_unit().unwrap();
    assert_eq!(buf, vec![0x00]);
    let mut d = Deserializer::from_bytes(&buf);
    d.deserialize_unit().unwrap();
    d.end().unwrap();
}

#[test]
fn bytes_of_none() {
    let mut buf = Vec::new();
    Serializer::new(&mut buf).serialize_none().unwrap();
    assert_eq!(buf, vec![0x05, 0x00]);
    let mut d = Deserializer::from_bytes(&buf);
    assert_eq!(d.deserialize_option().unwrap(), false);
    d.end().unwrap();
}

#[test]
fn bytes_of_some_7() {
    let mut buf = Vec::new();
    Serializer::new(&mut buf).serialize_some().unwrap().serialize_i32(7).unwrap();
    assert_eq!(buf, vec![0x0D, 0x70]);
    let mut d = Deserializer::from_bytes(&buf);
    assert_eq!(d.deserialize_option().unwrap(), true);
    assert_eq!(d.deserialize_i32().unwrap(), 7);
    d.end().unwrap();
}

#[test]
fn option_with_any_other_discriminant_is_some() {
    let buf = [0x15u8, 0x70];
    let mut d = Deserializer::from_bytes(&buf);
    assert_eq!(d.deserialize_option().unwrap(), true);
    assert_eq!(d.deserialize_i32().unwrap(), 7);
    d.end().unwrap();
}

fn write_unsigned_record(s: Serializer, fields: &[u32]) -> Result<(), Error> {
    let mut record = s.serialize_struct(fields.len())?;
    for field in fields {
        record.element().serialize_u32(*field)?;
    }
    record.end()
}

fn read_unsigned_record(d: &mut Deserializer, declared: usize) -> Result<Vec<u32>, Error> {
    let mut reader = d.deserialize_tuple(declared)?;
    let mut fields = Vec::new();
    for _ in 0..declared {
        if reader.next_element() {
            fields.push(d.deserialize_u32()?);
        } else {
            fields.push(0);
        }
    }
    reader.finish(d)?;
    Ok(fields)
}

#[test]
fn bytes_of_struct() {
    // fields 1 and 2, unsigned: the tag byte holds the number itself
    let mut buf = Vec::new();
    write_unsigned_record(Serializer::new(&mut buf), &[1, 2]).unwrap();
    assert_eq!(buf, vec![0x13, 0x08, 0x10]);
    let mut d = Deserializer::from_bytes(&buf);
    assert_eq!(read_unsigned_record(&mut d, 2).unwrap(), vec![1, 2]);
    d.end().unwrap();

    // fields 1 and 2, signed: the tag byte holds the zig-zag image, 2 and 4
    let mut buf = Vec::new();
    write_record(Serializer::new(&mut buf), &[1, 2]).unwrap();
    assert_eq!(buf, vec![0x13, 0x10, 0x20]);
    let mut d = Deserializer::from_bytes(&buf);
    assert_eq!(read_record(&mut d, 2, 2).unwrap(), vec![1, 2]);
    d.end().unwrap();
}

#[test]
fn bytes_of_struct_across_versions() {
    let mut long = Vec::new();
    write_unsigned_record(Serializer::new(&mut long), &[1, 2, 3]).unwrap();
    assert_eq!(long, vec![0x1B, 0x08, 0x10, 0x18]);
    let mut d = Deserializer::from_bytes(&long);
    assert_eq!(read_unsigned_record(&mut d, 2).unwrap(), vec![1, 2]);
    d.end().unwrap();

    let mut short = Vec::new();
    write_unsigned_record(Serializer::new(&mut short), &[1, 2]).unwrap();
    assert_eq!(short, vec![0x13, 0x08, 0x10]);
    let mut d = Deserializer::from_bytes(&short);
    assert_eq!(read_unsigned_record(&mut d, 3).unwrap(), vec![1, 2, 0]);
    d.end().unwrap();

    // the same with signed fields
    let mut long = Vec::new();
    write_record(Serializer::new(&mut long), &[1, 2, 3]).unwrap();
    assert_eq!(long, vec![0x1B, 0x10, 0x20, 0x30]);
    let mut d = Deserializer::from_bytes(&long);
    assert_eq!(read_record(&mut d, 2, 2).unwrap(), vec![1, 2]);
    d.end().unwrap();

    let mut short = Vec::new();
    write_record(Serializer::new(&mut short), &[1, 2]).unwrap();
    assert_eq!(short, vec![0x13, 0x10, 0x20]);
    let mut d = Deserializer::from_bytes(&short);
    assert_eq!(read_record(&mut d, 3, 2).unwrap(), vec![1, 2, 0]);
    d.end().unwrap();
}

#[test]
fn reader_counts_what_it_is_shown() {
    let buf = [0x1Bu8, 0x08, 0x10, 0x18, 0x55];
    let mut d = Deserializer::from_bytes(&buf);
    let mut reader = d.deserialize_tuple(2).unwrap();
    assert_eq!(reader.size_hint(), Some(2));
    assert!(reader.next_element());
    assert_eq!(reader.size_hint(), Some(1));
    assert_eq!(d.deserialize_u32().unwrap(), 1);
    assert!(reader.next_element());
    assert_eq!(d.deserialize_u32().unwrap(), 2);
    assert!(!reader.next_element());
    assert!(!reader.next_element());
    assert_eq!(reader.size_hint(), Some(0));
    assert_eq!(d.remaining_len(), 2);
    // the field that the reader does not know is dropped at the end
    reader.finish(&mut d).unwrap();
    assert_eq!(d.remaining_len(), 1);
    assert!(matches!(d.end(), Err(Error::DataBeyondEnd)));

    // a sequence of any length is shown whole
    let mut d = Deserializer::from_bytes(&buf);
    let reader = d.deserialize_seq().unwrap();
    assert_eq!(reader.size_hint(), Some(3));
    // and what was not read is skipped, all of it
    reader.finish(&mut d).unwrap();
    assert_eq!(d.remaining_len(), 1);
}

#[test]
fn ten_byte_varints() {
    let mut buf = Vec::new();
    Serializer::new(&mut buf).serialize_u64(u64::MAX).unwrap();
    assert_eq!(buf.len(), 10);
    let mut d = Deserializer::from_bytes(&buf);
    assert_eq!(d.deserialize_u64().unwrap(), u64::MAX);
    d.end().unwrap();

    let mut buf = Vec::new();
    Serializer::new(&mut buf).serialize_i64(i64::MIN).unwrap();
    assert_eq!(buf.len(), 10);
    assert_eq!(buf, vec![0xF8, 0xFF, 0xFF, 0xFF, 0xFF, 0xFF, 0xFF, 0xFF, 0xFF, 0x0F]);
    let mut d = Deserializer::from_bytes(&buf);
    assert_eq!(d.deserialize_i64().unwrap(), i64::MIN);
    d.end().unwrap();
}

#[test]
fn nineteen_byte_varint() {
    let mut buf = Vec::new();
    Serializer::new(&mut buf).serialize_u128(u128::MAX).unwrap();
    assert_eq!(buf.len(), 19);
    let mut d = Deserializer::from_bytes(&buf);
    assert_eq!(d.deserialize_u128().unwrap(), u128::MAX);
    d.end().unwrap();
    // and it can be skipped
    let mut d = Deserializer::from_bytes(&buf);
    d.skip().unwrap();
    d.end().unwrap();
}

#[test]
fn empty_sequence() {
    let mut buf = Vec::new();
    Serializer::new(&mut buf).serialize_seq(Some(0)).unwrap().end().unwrap();
    assert_eq!(buf, vec![0x03]);
    let mut d = Deserializer::from_bytes(&buf);
    let mut reader = d.deserialize_seq().unwrap();
    assert!(!reader.next_element());
    reader.finish(&mut d).unwrap();
    d.end().unwrap();
}

#[test]
fn empty_string() {
    let mut buf = Vec::new();
    Serializer::new(&mut buf).serialize_str("").unwrap();
    assert_eq!(buf, vec![0x04]);
    let mut d = Deserializer::from_bytes(&buf);
    assert_eq!(d.deserialize_str().unwrap(), "");
    d.end().unwrap();
}

#[test]
fn map_with_odd_length() {
    let buf = [0x1Bu8, 0x08, 0x10, 0x18];
    let mut d = Deserializer::from_bytes(&buf);
    assert!(matches!(d.deserialize_map(), Err(Error::InvalidMap)));

    let buf = [0x23u8, 0x08, 0x10, 0x18, 0x20];
    let mut d = Deserializer::from_bytes(&buf);
    let mut reader = d.deserialize_map().unwrap();
    assert_eq!(reader.size_hint(), Some(2));
    assert!(reader.next_key());
    assert_eq!(d.deserialize_u32().unwrap(), 1);
    reader.next_value();
    assert_eq!(d.deserialize_u32().unwrap(), 2);
    // the entry that is not read is skipped, key and value
    reader.finish(&mut d).unwrap();
    d.end().unwrap();
}

#[test]
fn truncated_mid_varint() {
    let mut buf = Vec::new();
    Serializer::new(&mut buf).serialize_u64(u64::MAX).unwrap();
    for len in 1..buf.len() {
        let mut d = Deserializer::from_bytes(&buf[..len]);
        assert!(matches!(d.deserialize_u64(), Err(Error::UnexpectedEndOfInput)));
        let mut d = Deserializer::from_bytes(&buf[..len]);
        assert!(matches!(d.skip(), Err(Error::UnexpectedEndOfInput)));
    }
    let mut d = Deserializer::from_bytes(&[]);
    assert!(matches!(d.deserialize_u64(), Err(Error::UnexpectedEndOfInput)));
    assert!(matches!(d.skip(), Err(Error::UnexpectedEndOfInput)));
    assert!(matches!(d.read_byte(), Err(Error::UnexpectedEndOfInput)));
}

#[test]
fn truncated_elsewhere() {
    // a byte string that says it is longer than what is left
    let buf = [0x1Cu8, 0x61, 0x62];
    let mut d = Deserializer::from_bytes(&buf);
    assert!(matches!(d.deserialize_bytes(), Err(Error::UnexpectedEndOfInput)));
    assert_eq!(d.remaining_len(), 2);
    let mut d = Deserializer::from_bytes(&buf);
    assert!(matches!(d.skip(), Err(Error::UnexpectedEndOfInput)));

    // fixed-width values that are cut short
    let buf = [0x01u8, 1, 2, 3];
    let mut d = Deserializer::from_bytes(&buf);
    assert!(matches!(d.deserialize_fixed(), Err(Error::UnexpectedEndOfInput)));
    assert_eq!(d.remaining_len(), 3);
    let buf = [0x02u8, 1, 2, 3, 4, 5, 6, 7];
    let mut d = Deserializer::from_bytes(&buf);
    assert!(matches!(d.skip(), Err(Error::UnexpectedEndOfInput)));
    assert!(matches!(d.read(8), Err(Error::UnexpectedEndOfInput)));
    assert_eq!(d.read(7).unwrap(), &[1u8, 2, 3, 4, 5, 6, 7][..]);

    // a sequence with fewer items than it says
    let buf = [0x1Bu8, 0x08, 0x10];
    let mut d = Deserializer::from_bytes(&buf);
    assert!(matches!(d.skip(), Err(Error::UnexpectedEndOfInput)));
    assert_eq!(d.remaining_len(), 0);

    // a variant without its value
    let buf = [0x0Du8];
    let mut d = Deserializer::from_bytes(&buf);
    assert!(matches!(d.skip(), Err(Error::UnexpectedEndOfInput)));
    let mut d = Deserializer::from_bytes(&[0x05u8]);
    assert!(matches!(d.deserialize_option(), Err(Error::UnexpectedEndOfInput)));
}

#[test]
fn reserved_wire_types() {
    for &tag in &[0x06u8, 0x07, 0x0E, 0x0F, 0xFE, 0xFF] {
        let buf = [tag, 0x00, 0x00];
        let mut d = Deserializer::from_bytes(&buf);
        assert!(matches!(d.skip(), Err(Error::UnexpectedWireType)));
        assert_eq!(d.remaining_len(), 2);
        assert!(matches!(
            Deserializer::from_bytes(&buf).deserialize_u64(),
            Err(Error::UnexpectedWireType)
        ));
        assert!(matches!(
            Deserializer::from_bytes(&buf).deserialize_i128(),
            Err(Error::UnexpectedWireType)
        ));
        assert!(matches!(
            Deserializer::from_bytes(&buf).deserialize_fixed(),
            Err(Error::UnexpectedWireType)
        ));
        assert!(matches!(
            Deserializer::from_bytes(&buf).deserialize_bytes(),
            Err(Error::UnexpectedWireType)
        ));
        assert!(matches!(
            Deserializer::from_bytes(&buf).deserialize_seq(),
            Err(Error::UnexpectedWireType)
        ));
        assert!(matches!(
            Deserializer::from_bytes(&buf).deserialize_option(),
            Err(Error::UnexpectedWireType)
        ));
        assert!(matches!(
            Deserializer::from_bytes(&buf).deserialize_variant(),
            Err(Error::UnexpectedWireType)
        ));
        // a reserved wire type inside a sequence stops the skip there
        let nested = [0x13u8, 0x08, tag, 0x00];
        let mut d = Deserializer::from_bytes(&nested);
        assert!(matches!(d.skip(), Err(Error::UnexpectedWireType)));
        assert_eq!(d.remaining_len(), 1);
    }
}

#[test]
fn wrong_wire_type_takes_the_tag_byte_only() {
    // a sequence where an integer is expected
    let buf = [0x13u8, 0x08, 0x10];
    let mut d = Deserializer::from_bytes(&buf);
    assert!(matches!(d.deserialize_i32(), Err(Error::UnexpectedWireType)));
    assert_eq!(d.remaining_len(), 2);
    // an integer where a sequence, a map, a string or a variant is expected
    let buf = [0xA0u8, 0x05];
    let mut d = Deserializer::from_bytes(&buf);
    assert!(matches!(d.deserialize_tuple(2), Err(Error::UnexpectedWireType)));
    assert_eq!(d.remaining_len(), 1);
    let mut d = Deserializer::from_bytes(&buf);
    assert!(matches!(d.deserialize_map(), Err(Error::UnexpectedWireType)));
    assert_eq!(d.remaining_len(), 1);
    let mut d = Deserializer::from_bytes(&buf);
    assert!(matches!(d.deserialize_str(), Err(Error::UnexpectedWireType)));
    assert_eq!(d.remaining_len(), 1);
    let mut d = Deserializer::from_bytes(&buf);
    assert!(matches!(d.deserialize_variant(), Err(Error::UnexpectedWireType)));
    assert_eq!(d.remaining_len(), 1);
    // a string where a bool or a char is expected
    let buf = [0x0Cu8, 0x61];
    let mut d = Deserializer::from_bytes(&buf);
    assert!(matches!(d.deserialize_bool(), Err(Error::UnexpectedWireType)));
    assert_eq!(d.remaining_len(), 1);
    let mut d = Deserializer::from_bytes(&buf);
    assert!(matches!(d.deserialize_char(), Err(Error::UnexpectedWireType)));
    assert_eq!(d.remaining_len(), 1);
}

#[test]
fn variant_discriminant_fits_32_bits() {
    let mut buf = Vec::new();
    Serializer::new(&mut buf).serialize_unit_variant(u32::MAX).unwrap();
    let mut d = Deserializer::from_bytes(&buf);
    let (index, variant) = d.deserialize_variant().unwrap();
    assert_eq!(index, u32::MAX);
    variant.unit_variant(&mut d).unwrap();
    d.end().unwrap();

    // one more does not fit
    let mut buf = Vec::new();
    fcode::wire::write_varint(&mut buf, fcode::wire::WireType::Variant, 1 << 32).unwrap();
    buf.push(0x00);
    let mut d = Deserializer::from_bytes(&buf);
    assert!(matches!(d.deserialize_variant(), Err(Error::ValueOverflow)));
    // though it can be skipped
    let mut d = Deserializer::from_bytes(&buf);
    d.skip().unwrap();
    d.end().unwrap();
}

#[test]
fn skip_steps_over_exactly_one_value() {
    // one value of every wire type, and a marker after each
    let mut buf = Vec::new();
    let mut lengths = Vec::new();
    let marker = 0x58u8;

    let start = buf.len();
    Serializer::new(&mut buf).serialize_i64(i64::MIN).unwrap();
    lengths.push(buf.len() - start);
    buf.push(marker);

    let start = buf.len();
    Serializer::new(&mut buf).serialize_fixed32(0xDEAD_BEEF).unwrap();
    lengths.push(buf.len() - start);
    buf.push(marker);

    let start = buf.len();
    Serializer::new(&mut buf).serialize_fixed64(0xDEAD_BEEF_DEAD_BEEF).unwrap();
    lengths.push(buf.len() - start);
    buf.push(marker);

    let start = buf.len();
    {
        let mut outer = Serializer::new(&mut buf).serialize_tuple(3).unwrap();
        outer.element().serialize_str("a string of more than fifteen bytes").unwrap();
        write_record(outer.element(), &[1, 2, 3]).unwrap();
        outer.element().serialize_some().unwrap().serialize_none().unwrap();
        outer.end().unwrap();
    }
    lengths.push(buf.len() - start);
    buf.push(marker);

    let start = buf.len();
    Serializer::new(&mut buf).serialize_bytes(&[0xFF; 300]).unwrap();
    lengths.push(buf.len() - start);
    buf.push(marker);

    let start = buf.len();
    {
        let mut variant = Serializer::new(&mut buf).serialize_tuple_variant(77, 2).unwrap();
        variant.element().serialize_u128(u128::MAX).unwrap();
        variant.element().serialize_unit().unwrap();
        variant.end().unwrap();
    }
    lengths.push(buf.len() - start);
    buf.push(marker);

    assert_eq!(lengths[0], 10);
    assert_eq!(lengths[1], 5);
    assert_eq!(lengths[2], 9);
    assert_eq!(lengths[4], 2 + 300);

    let mut d = Deserializer::from_bytes(&buf);
    for length in lengths {
        let before = d.remaining_len();
        d.skip().unwrap();
        assert_eq!(before - d.remaining_len(), length);
        assert_eq!(d.read_byte().unwrap(), marker);
    }
    d.end().unwrap();
}

#[test]
fn whole_buffer_rule() {
    let mut buf = Vec::new();
    write_record(Serializer::new(&mut buf), &[1, 2, 3]).unwrap();
    let written = buf.len();
    buf.push(0x00);
    let mut d = Deserializer::from_bytes(&buf);
    assert_eq!(read_record(&mut d, 3, 3).unwrap(), vec![1, 2, 3]);
    assert_eq!(buf.len() - d.remaining_len(), written);
    assert!(matches!(d.end(), Err(Error::DataBeyondEnd)));
    // with the extra byte read, the buffer is at its end
    d.deserialize_unit().unwrap();
    assert!(d.end().is_ok());
}

#[test]
fn errors_from_std() {
    let narrow = u8::try_from(256u32).unwrap_err();
    assert!(matches!(Error::from(narrow), Error::ValueOverflow));
    let surrogate = char::try_from(0xD800u32).unwrap_err();
    assert!(matches!(Error::from(surrogate), Error::InvalidChar));
    let bytes = [0xFFu8];
    let not_utf8 = std::str::from_utf8(&bytes).unwrap_err();
    assert!(matches!(Error::from(not_utf8), Error::InvalidUtf8));
    let sink = std::io::Error::new(std::io::ErrorKind::Other, "sink is full");
    assert!(matches!(Error::from(sink), Error::IO(_)));
    assert!(matches!(Error::Serialization("no".to_string()), Error::Serialization(_)));
}
