use crate::error::{DecodeError, EncodeError};
use crate::fbits::bits_of_small_int;
use crate::fbits::{compact_byte, f32_bits_of_int, quantizable, quantize};
use crate::io::{lemma_write_append, lemma_write_at_concat, write_at, BinaryReader, BinaryWriter, SeekFrom};
use crate::le::{lemma_u64_round_trip, u16_bytes, u16_le, u32_bytes, u32_le, u64_bytes, u64_le};
use crate::map::{note_of_record, GameMap, MapFormat, MapView, Note};
use crate::value::{
    kind_of, schema_view, slot_kinds, slot_kinds_seq, tag_slot, ObjectDefinition, ObjectType, RecordView,
    SchemaView, TagKind, ValueView, Vec2,
};
use vstd::prelude::*;
use vstd::utf8::{decode_utf8, encode_utf8, valid_utf8};

verus! {

/// Serializer and deserializer for the SSPM binary container.
pub struct SSPMSerializer;

/// The four magic bytes every SSPM stream starts with: `SS+m`.
pub open spec fn magic_bytes() -> Seq<u8> {
    seq![0x53u8, 0x53u8, 0x2bu8, 0x6du8]
}

/// What parsing one value of kind `k` at `pos` yields: the value's view
/// and the position after it, or the error that stops the decode.
pub open spec fn spec_parse_value(d: Seq<u8>, pos: int, k: TagKind) -> Result<
    (ValueView, int),
    DecodeError,
> {
    match k {
        TagKind::U8 => if pos + 1 <= d.len() {
            Ok((ValueView::U8(Some(d[pos])), pos + 1))
        } else {
            Err(DecodeError::TruncatedInput)
        },
        TagKind::U16 => if pos + 2 <= d.len() {
            Ok((ValueView::U16(Some(u16_le(d[pos], d[pos + 1]))), pos + 2))
        } else {
            Err(DecodeError::TruncatedInput)
        },
        TagKind::U32 => if pos + 4 <= d.len() {
            Ok((ValueView::U32(Some(u32_le(d[pos], d[pos + 1], d[pos + 2], d[pos + 3]))), pos + 4))
        } else {
            Err(DecodeError::TruncatedInput)
        },
        TagKind::U64 => if pos + 8 <= d.len() {
            Ok(
                (
                    ValueView::U64(
                        Some(
                            u64_le(
                                d[pos],
                                d[pos + 1],
                                d[pos + 2],
                                d[pos + 3],
                                d[pos + 4],
                                d[pos + 5],
                                d[pos + 6],
                                d[pos + 7],
                            ),
                        ),
                    ),
                    pos + 8,
                ),
            )
        } else {
            Err(DecodeError::TruncatedInput)
        },
        TagKind::F32 => if pos + 4 <= d.len() {
            Ok((ValueView::F32(Some(u32_le(d[pos], d[pos + 1], d[pos + 2], d[pos + 3]))), pos + 4))
        } else {
            Err(DecodeError::TruncatedInput)
        },
        TagKind::F64 => if pos + 8 <= d.len() {
            Ok(
                (
                    ValueView::F64(
                        Some(
                            u64_le(
                                d[pos],
                                d[pos + 1],
                                d[pos + 2],
                                d[pos + 3],
                                d[pos + 4],
                                d[pos + 5],
                                d[pos + 6],
                                d[pos + 7],
                            ),
                        ),
                    ),
                    pos + 8,
                ),
            )
        } else {
            Err(DecodeError::TruncatedInput)
        },
        TagKind::Vec2 => spec_parse_vec2(d, pos),
        TagKind::Buf => if pos + 2 <= d.len() {
            let n = u16_le(d[pos], d[pos + 1]) as int;
            if pos + 2 + n <= d.len() {
                Ok((ValueView::Buf(Some(d.subrange(pos + 2, pos + 2 + n))), pos + 2 + n))
            } else {
                Err(DecodeError::TruncatedInput)
            }
        } else {
            Err(DecodeError::TruncatedInput)
        },
        TagKind::Str => match spec_parse_str(d, pos) {
            Ok((s, np)) => Ok((ValueView::Str(Some(s)), np)),
            Err(e) => Err(e),
        },
        TagKind::LongBuf => if pos + 4 <= d.len() {
            let n = u32_le(d[pos], d[pos + 1], d[pos + 2], d[pos + 3]) as int;
            if pos + 4 + n <= d.len() {
                Ok((ValueView::LongBuf(Some(d.subrange(pos + 4, pos + 4 + n))), pos + 4 + n))
            } else {
                Err(DecodeError::TruncatedInput)
            }
        } else {
            Err(DecodeError::TruncatedInput)
        },
        TagKind::LongStr => match spec_parse_long_str(d, pos) {
            Ok((s, np)) => Ok((ValueView::LongStr(Some(s)), np)),
            Err(e) => Err(e),
        },
        TagKind::I64 => Err(DecodeError::UnsupportedFeature),
        TagKind::Vec3 => Err(DecodeError::UnsupportedFeature),
        TagKind::Nested => Err(DecodeError::UnsupportedFeature),
    }
}

/// A quantized 2D vector: one flag byte, then either two full
/// single-precision patterns or two compact bytes, each read as the
/// byte's value minus two.
pub open spec fn spec_parse_vec2(d: Seq<u8>, pos: int) -> Result<(ValueView, int), DecodeError> {
    if pos + 1 > d.len() {
        Err(DecodeError::TruncatedInput)
    } else if d[pos] == 1 {
        if pos + 9 <= d.len() {
            Ok(
                (
                    ValueView::Vec2(
                        Some(
                            Vec2 {
                                x: u32_le(d[pos + 1], d[pos + 2], d[pos + 3], d[pos + 4]),
                                y: u32_le(d[pos + 5], d[pos + 6], d[pos + 7], d[pos + 8]),
                            },
                        ),
                    ),
                    pos + 9,
                ),
            )
        } else {
            Err(DecodeError::TruncatedInput)
        }
    } else {
        if pos + 3 <= d.len() {
            Ok(
                (
                    ValueView::Vec2(
                        Some(
                            Vec2 {
                                x: bits_of_small_int(d[pos + 1] - 2),
                                y: bits_of_small_int(d[pos + 2] - 2),
                            },
                        ),
                    ),
                    pos + 3,
                ),
            )
        } else {
            Err(DecodeError::TruncatedInput)
        }
    }
}

/// A short string: 16-bit byte length, then that many UTF-8 bytes.
pub open spec fn spec_parse_str(d: Seq<u8>, pos: int) -> Result<(Seq<char>, int), DecodeError> {
    if pos + 2 > d.len() {
        Err(DecodeError::TruncatedInput)
    } else {
        let n = u16_le(d[pos], d[pos + 1]) as int;
        if pos + 2 + n > d.len() {
            Err(DecodeError::TruncatedInput)
        } else if !valid_utf8(d.subrange(pos + 2, pos + 2 + n)) {
            Err(DecodeError::InvalidEncoding)
        } else {
            Ok((decode_utf8(d.subrange(pos + 2, pos + 2 + n)), pos + 2 + n))
        }
    }
}

/// A long string: 32-bit byte length, then that many UTF-8 bytes.
pub open spec fn spec_parse_long_str(d: Seq<u8>, pos: int) -> Result<
    (Seq<char>, int),
    DecodeError,
> {
    if pos + 4 > d.len() {
        Err(DecodeError::TruncatedInput)
    } else {
        let n = u32_le(d[pos], d[pos + 1], d[pos + 2], d[pos + 3]) as int;
        if pos + 4 + n > d.len() {
            Err(DecodeError::TruncatedInput)
        } else if !valid_utf8(d.subrange(pos + 4, pos + 4 + n)) {
            Err(DecodeError::InvalidEncoding)
        } else {
            Ok((decode_utf8(d.subrange(pos + 4, pos + 4 + n)), pos + 4 + n))
        }
    }
}

/// What parsing one value of each slot kind in order yields: the field
/// views and the position after them, or the first error.
pub open spec fn spec_parse_fields(d: Seq<u8>, pos: int, slots: Seq<TagKind>) -> Result<
    (Seq<ValueView>, int),
    DecodeError,
>
    decreases slots.len(),
{
    if slots.len() == 0 {
        Ok((Seq::empty(), pos))
    } else {
        match spec_parse_value(d, pos, slots[0]) {
            Err(e) => Err(e),
            Ok((v, np)) => match spec_parse_fields(d, np, slots.drop_first()) {
                Err(e) => Err(e),
                Ok((vs, fp)) => Ok((seq![v] + vs, fp)),
            },
        }
    }
}

/// The exec parser for kind `k` behaved as the spec parser says: same
/// value view and position on success, same error and an unmoved
/// position on failure.
pub open spec fn parses_value(
    d: Seq<u8>,
    pre: u64,
    post: u64,
    r: Result<ObjectType, DecodeError>,
    k: TagKind,
) -> bool {
    match spec_parse_value(d, pre as int, k) {
        Ok((vv, np)) => r matches Ok(v) && v@ == vv && kind_of(v) == k && post == np,
        Err(e) => r == Err::<ObjectType, DecodeError>(e) && post == pre,
    }
}

impl SSPMSerializer {
    pub fn parse_u8(parser: &mut BinaryReader) -> (r: Result<ObjectType, DecodeError>)
        ensures
            final(parser).data@ == old(parser).data@,
            parses_value(old(parser).data@, old(parser).pos, final(parser).pos, r, TagKind::U8),
    {
        match parser.read_u8() {
            Ok(v) => Ok(ObjectType::U8(Some(v))),
            Err(e) => Err(e),
        }
    }

    pub fn parse_u16(parser: &mut BinaryReader) -> (r: Result<ObjectType, DecodeError>)
        ensures
            final(parser).data@ == old(parser).data@,
            parses_value(old(parser).data@, old(parser).pos, final(parser).pos, r, TagKind::U16),
    {
        match parser.read_u16() {
            Ok(v) => Ok(ObjectType::U16(Some(v))),
            Err(e) => Err(e),
        }
    }

    pub fn parse_u32(parser: &mut BinaryReader) -> (r: Result<ObjectType, DecodeError>)
        ensures
            final(parser).data@ == old(parser).data@,
            parses_value(old(parser).data@, old(parser).pos, final(parser).pos, r, TagKind::U32),
    {
        match parser.read_u32() {
            Ok(v) => Ok(ObjectType::U32(Some(v))),
            Err(e) => Err(e),
        }
    }

    pub fn parse_u64(parser: &mut BinaryReader) -> (r: Result<ObjectType, DecodeError>)
        ensures
            final(parser).data@ == old(parser).data@,
            parses_value(old(parser).data@, old(parser).pos, final(parser).pos, r, TagKind::U64),
    {
        match parser.read_u64() {
            Ok(v) => Ok(ObjectType::U64(Some(v))),
            Err(e) => Err(e),
        }
    }

    /// A 32-bit pattern, kept as bits and never interpreted.
    pub fn parse_f32(parser: &mut BinaryReader) -> (r: Result<ObjectType, DecodeError>)
        ensures
            final(parser).data@ == old(parser).data@,
            parses_value(old(parser).data@, old(parser).pos, final(parser).pos, r, TagKind::F32),
    {
        match parser.read_u32() {
            Ok(v) => Ok(ObjectType::F32(Some(v))),
            Err(e) => Err(e),
        }
    }

    /// A 64-bit pattern, kept as bits and never interpreted.
    pub fn parse_f64(parser: &mut BinaryReader) -> (r: Result<ObjectType, DecodeError>)
        ensures
            final(parser).data@ == old(parser).data@,
            parses_value(old(parser).data@, old(parser).pos, final(parser).pos, r, TagKind::F64),
    {
        match parser.read_u64() {
            Ok(v) => Ok(ObjectType::F64(Some(v))),
            Err(e) => Err(e),
        }
    }

    /// A quantized 2D vector; a compact axis byte reads as its value
    /// minus two.
    pub fn parse_vec2(parser: &mut BinaryReader) -> (r: Result<ObjectType, DecodeError>)
        ensures
            final(parser).data@ == old(parser).data@,
            parses_value(old(parser).data@, old(parser).pos, final(parser).pos, r, TagKind::Vec2),
    {
        let begin = parser.pos;
        let quantum = match parser.read_bool() {
            Ok(v) => v,
            Err(e) => { return Err(e) },
        };
        if quantum {
            let x = match parser.read_u32() {
                Ok(v) => v,
                Err(e) => {
                    parser.pos = begin;
                    return Err(e);
                },
            };
            let y = match parser.read_u32() {
                Ok(v) => v,
                Err(e) => {
                    parser.pos = begin;
                    return Err(e);
                },
            };
            Ok(ObjectType::Vec2(Some(Vec2 { x, y })))
        } else {
            let bx = match parser.read_u8() {
                Ok(v) => v,
                Err(e) => {
                    parser.pos = begin;
                    return Err(e);
                },
            };
            let by = match parser.read_u8() {
                Ok(v) => v,
                Err(e) => {
                    parser.pos = begin;
                    return Err(e);
                },
            };
            let x = f32_bits_of_int(bx as i32 - 2);
            let y = f32_bits_of_int(by as i32 - 2);
            Ok(ObjectType::Vec2(Some(Vec2 { x, y })))
        }
    }

    /// A short buffer: 16-bit byte length, then raw bytes.
    pub fn parse_buf(parser: &mut BinaryReader) -> (r: Result<ObjectType, DecodeError>)
        ensures
            final(parser).data@ == old(parser).data@,
            parses_value(old(parser).data@, old(parser).pos, final(parser).pos, r, TagKind::Buf),
    {
        let begin = parser.pos;
        let n = match parser.read_u16() {
            Ok(v) => v,
            Err(e) => { return Err(e) },
        };
        match parser.read_exact(n as usize) {
            Ok(buffer) => Ok(ObjectType::Buf(Some(buffer))),
            Err(e) => {
                parser.pos = begin;
                Err(e)
            },
        }
    }

    /// A long buffer: 32-bit byte length, then raw bytes.
    pub fn parse_long_buf(parser: &mut BinaryReader) -> (r: Result<ObjectType, DecodeError>)
        ensures
            final(parser).data@ == old(parser).data@,
            parses_value(
                old(parser).data@,
                old(parser).pos,
                final(parser).pos,
                r,
                TagKind::LongBuf,
            ),
    {
        let begin = parser.pos;
        let n = match parser.read_u32() {
            Ok(v) => v,
            Err(e) => { return Err(e) },
        };
        if (n as u64) > (usize::MAX as u64) {
            return Err(DecodeError::TruncatedInput);
        }
        match parser.read_exact(n as usize) {
            Ok(buffer) => Ok(ObjectType::LongBuf(Some(buffer))),
            Err(e) => {
                parser.pos = begin;
                Err(e)
            },
        }
    }

    pub fn parse_string(parser: &mut BinaryReader) -> (r: Result<ObjectType, DecodeError>)
        ensures
            final(parser).data@ == old(parser).data@,
            parses_value(old(parser).data@, old(parser).pos, final(parser).pos, r, TagKind::Str),
    {
        match parser.read_string() {
            Ok(s) => Ok(ObjectType::Str(Some(s))),
            Err(e) => Err(e),
        }
    }

    pub fn parse_long_string(parser: &mut BinaryReader) -> (r: Result<ObjectType, DecodeError>)
        ensures
            final(parser).data@ == old(parser).data@,
            parses_value(
                old(parser).data@,
                old(parser).pos,
                final(parser).pos,
                r,
                TagKind::LongStr,
            ),
    {
        match parser.read_long_string() {
            Ok(s) => Ok(ObjectType::LongStr(Some(s))),
            Err(e) => Err(e),
        }
    }

    /// A nested sequence is declared in the tag space but has no
    /// decoding.
    pub fn parse_vec(parser: &mut BinaryReader) -> (r: Result<ObjectType, DecodeError>)
        ensures
            final(parser).data@ == old(parser).data@,
            parses_value(old(parser).data@, old(parser).pos, final(parser).pos, r, TagKind::Nested),
    {
        Err(DecodeError::UnsupportedFeature)
    }

    /// Parse one value of the kind the given slot declares.
    pub fn parse_types(object_type: &ObjectType, parser: &mut BinaryReader) -> (r: Result<
        ObjectType,
        DecodeError,
    >)
        ensures
            final(parser).data@ == old(parser).data@,
            parses_value(
                old(parser).data@,
                old(parser).pos,
                final(parser).pos,
                r,
                kind_of(*object_type),
            ),
    {
        match object_type {
            ObjectType::U8(_) => Self::parse_u8(parser),
            ObjectType::U16(_) => Self::parse_u16(parser),
            ObjectType::U32(_) => Self::parse_u32(parser),
            ObjectType::U64(_) => Self::parse_u64(parser),
            ObjectType::F32(_) => Self::parse_f32(parser),
            ObjectType::F64(_) => Self::parse_f64(parser),
            ObjectType::Vec2(_) => Self::parse_vec2(parser),
            ObjectType::Buf(_) => Self::parse_buf(parser),
            ObjectType::LongBuf(_) => Self::parse_long_buf(parser),
            ObjectType::Str(_) => Self::parse_string(parser),
            ObjectType::LongStr(_) => Self::parse_long_string(parser),
            ObjectType::Nested(_) => Self::parse_vec(parser),
            _ => Err(DecodeError::UnsupportedFeature),
        }
    }

    /// Decode one record body: one value per slot of the schema entry,
    /// in declared order, with the given timestamp.
    pub fn parse_definitions(
        marker_definition: &ObjectDefinition,
        ms: u32,
        parser: &mut BinaryReader,
    ) -> (r: Result<ObjectDefinition, DecodeError>)
        ensures
            final(parser).data@ == old(parser).data@,
            match spec_parse_fields(
                old(parser).data@,
                old(parser).pos as int,
                slot_kinds(marker_definition),
            ) {
                Ok((fields, np)) => r matches Ok(rec) && rec@.name == marker_definition.name@
                    && rec@.millisecond == ms && rec@.fields == fields && final(parser).pos == np,
                Err(e) => r == Err::<ObjectDefinition, DecodeError>(e) && final(parser).pos == old(
                    parser,
                ).pos,
            },
    {
        let begin = parser.pos;
        let mut object_types: Vec<ObjectType> = Vec::new();
        let n = marker_definition.definitions.len();
        let mut i: usize = 0;
        proof {
            let sk = slot_kinds(marker_definition);
            assert(sk.skip(0) =~= sk);
            match spec_parse_fields(old(parser).data@, begin as int, sk) {
                Ok((vs, fp)) => {
                    assert(Seq::new(0nat, |j: int| object_types@[j]@) + vs =~= vs);
                },
                Err(_) => {},
            }
        }
        while i < n
            invariant
                i <= n,
                n == marker_definition.definitions@.len(),
                parser.data@ == old(parser).data@,
                begin == old(parser).pos,
                object_types@.len() == i,
                spec_parse_fields(
                    old(parser).data@,
                    old(parser).pos as int,
                    slot_kinds(marker_definition),
                ) == (match spec_parse_fields(
                    old(parser).data@,
                    parser.pos as int,
                    slot_kinds(marker_definition).skip(i as int),
                ) {
                    Ok((vs, fp)) => Ok::<_, DecodeError>(
                        (Seq::new(i as nat, |j: int| object_types@[j]@) + vs, fp),
                    ),
                    Err(e) => Err(e),
                }),
            decreases n - i,
        {
            let ghost pre_pos = parser.pos;
            let ghost pre_views = Seq::new(i as nat, |j: int| object_types@[j]@);
            let ghost sk = slot_kinds(marker_definition);
            proof {
                assert(sk.skip(i as int)[0] == kind_of(marker_definition.definitions@[i as int]));
                assert(sk.skip(i as int).drop_first() =~= sk.skip(i + 1));
            }
            let slot = &marker_definition.definitions[i];
            let parsed = match Self::parse_types(slot, parser) {
                Ok(v) => v,
                Err(e) => {
                    parser.pos = begin;
                    return Err(e);
                },
            };
            proof {
                let (vv, np) = spec_parse_value(
                    old(parser).data@,
                    pre_pos as int,
                    sk.skip(i as int)[0],
                ).unwrap();
                assert(parsed@ == vv);
                match spec_parse_fields(old(parser).data@, np, sk.skip(i + 1)) {
                    Ok((vs, fp)) => {
                        assert(pre_views + (seq![vv] + vs) =~= pre_views.push(vv) + vs);
                        assert(pre_views.push(vv) =~= Seq::new(
                            (i + 1) as nat,
                            |j: int| object_types@.push(parsed)[j]@,
                        ));
                    },
                    Err(_) => {},
                }
            }
            object_types.push(parsed);
            i = i + 1;
        }
        proof {
            assert(slot_kinds(marker_definition).skip(n as int) =~= Seq::<TagKind>::empty());
            assert(Seq::new(n as nat, |j: int| object_types@[j]@) + Seq::<ValueView>::empty()
                =~= Seq::new(n as nat, |j: int| object_types@[j]@));
        }
        let rec = ObjectDefinition {
            name: marker_definition.name.as_str().to_owned(),
            millisecond: ms,
            definitions: object_types,
        };
        proof {
            assert(rec@.fields =~= Seq::new(n as nat, |j: int| rec.definitions@[j]@));
        }
        Ok(rec)
    }
}


/// The slot kinds that `cnt` schema type-tag bytes at `pos` declare.
pub open spec fn spec_parse_slots(d: Seq<u8>, pos: int, cnt: int) -> Result<
    (Seq<TagKind>, int),
    DecodeError,
>
    decreases cnt,
{
    if cnt <= 0 {
        Ok((Seq::empty(), pos))
    } else if pos + 1 > d.len() {
        Err(DecodeError::TruncatedInput)
    } else {
        match tag_slot(d[pos]) {
            None => Err(DecodeError::InvalidEncoding),
            Some(k) => match spec_parse_slots(d, pos + 1, cnt - 1) {
                Err(e) => Err(e),
                Ok((ks, np)) => Ok((seq![k] + ks, np)),
            },
        }
    }
}

/// What `remaining` schema registry entries at `pos` declare: per entry
/// a name string, a slot count, that many type tags, and a mandatory
/// zero terminator, whose absence is an `InvalidEncoding` error.
pub open spec fn spec_parse_schemas(d: Seq<u8>, pos: int, remaining: int) -> Result<
    (Seq<SchemaView>, int),
    DecodeError,
>
    decreases remaining,
{
    if remaining <= 0 {
        Ok((Seq::empty(), pos))
    } else {
        match spec_parse_str(d, pos) {
            Err(e) => Err(e),
            Ok((name, p1)) => if p1 + 1 > d.len() {
                Err(DecodeError::TruncatedInput)
            } else {
                match spec_parse_slots(d, p1 + 1, d[p1] as int) {
                    Err(e) => Err(e),
                    Ok((slots, p2)) => if p2 + 1 > d.len() {
                        Err(DecodeError::TruncatedInput)
                    } else if d[p2] != 0 {
                        Err(DecodeError::InvalidEncoding)
                    } else {
                        match spec_parse_schemas(d, p2 + 1, remaining - 1) {
                            Err(e) => Err(e),
                            Ok((ss, p3)) => Ok((seq![SchemaView { name, slots }] + ss, p3)),
                        }
                    },
                }
            },
        }
    }
}

/// The schemas a registry (a list of entries holding unpopulated slots)
/// declares.
pub open spec fn schemas_of(v: Seq<ObjectDefinition>) -> Seq<SchemaView> {
    Seq::new(v.len(), |i: int| schema_view(&v[i]))
}

/// The record views of a list of decoded records.
pub open spec fn records_of(v: Seq<ObjectDefinition>) -> Seq<RecordView> {
    Seq::new(v.len(), |i: int| v[i]@)
}

/// What the record stream between `pos` and `end` holds: the notes and
/// the unrecognized records, in stream order, or the first error.
/// A record that references an unregistered schema id, or that runs
/// past the declared end, is an `InvalidEncoding` error.
pub open spec fn spec_parse_records(
    d: Seq<u8>,
    pos: int,
    end: int,
    schemas: Seq<SchemaView>,
) -> Result<(Seq<Note>, Seq<RecordView>), DecodeError>
    decreases end - pos,
{
    if pos >= end {
        Ok((Seq::empty(), Seq::empty()))
    } else if pos + 5 > d.len() {
        Err(DecodeError::TruncatedInput)
    } else {
        let ms = u32_le(d[pos], d[pos + 1], d[pos + 2], d[pos + 3]);
        let id = d[pos + 4] as int;
        if id >= schemas.len() {
            Err(DecodeError::InvalidEncoding)
        } else {
            match spec_parse_fields(d, pos + 5, schemas[id].slots) {
                Err(e) => Err(e),
                Ok((fields, np)) => if np > end || np < pos + 5 {
                    Err(DecodeError::InvalidEncoding)
                } else if schemas[id].name == "ssp_note"@ {
                    match note_of_record(ms, fields) {
                        Err(e) => Err(e),
                        Ok(note) => match spec_parse_records(d, np, end, schemas) {
                            Err(e) => Err(e),
                            Ok((ns, os)) => Ok((seq![note] + ns, os)),
                        },
                    }
                } else {
                    match spec_parse_records(d, np, end, schemas) {
                        Err(e) => Err(e),
                        Ok((ns, os)) => Ok(
                            (
                                ns,
                                seq![
                                    RecordView { name: schemas[id].name, millisecond: ms, fields },
                                ] + os,
                            ),
                        ),
                    }
                },
            }
        }
    }
}

/// Parsing one value never moves the position backward.
pub proof fn lemma_parse_value_advances(d: Seq<u8>, pos: int, k: TagKind)
    ensures
        spec_parse_value(d, pos, k) matches Ok((v, np)) ==> np >= pos + 1,
{
}

/// Parsing a record body never moves the position backward.
pub proof fn lemma_parse_fields_advances(d: Seq<u8>, pos: int, slots: Seq<TagKind>)
    ensures
        spec_parse_fields(d, pos, slots) matches Ok((vs, np)) ==> np >= pos,
    decreases slots.len(),
{
    if slots.len() > 0 {
        lemma_parse_value_advances(d, pos, slots[0]);
        match spec_parse_value(d, pos, slots[0]) {
            Ok((v, np)) => {
                lemma_parse_fields_advances(d, np, slots.drop_first());
            },
            Err(_) => {},
        }
    }
}

/// Compare two strings by their UTF-8 bytes.
fn str_eq(a: &str, b: &str) -> (r: bool)
    ensures
        r <==> a@ == b@,
{
    let ab = a.as_bytes();
    let bb = b.as_bytes();
    proof {
        vstd::utf8::encode_utf8_decode_utf8(a@);
        vstd::utf8::encode_utf8_decode_utf8(b@);
    }
    if ab.len() != bb.len() {
        return false;
    }
    let n = ab.len();
    let mut i: usize = 0;
    while i < n
        invariant
            i <= n,
            n == ab@.len(),
            n == bb@.len(),
            ab@ == encode_utf8(a@),
            bb@ == encode_utf8(b@),
            forall|j: int| 0 <= j < i ==> ab@[j] == bb@[j],
        decreases n - i,
    {
        if ab[i] != bb[i] {
            return false;
        }
        i = i + 1;
    }
    proof {
        assert(ab@ =~= bb@);
    }
    true
}


/// When an entry's slot list fails to parse, the whole registry parse
/// fails with the same error.
proof fn lemma_schema_entry_err(
    d: Seq<u8>,
    pos: int,
    remaining: int,
    e: DecodeError,
    name: Seq<char>,
    slots_pos: int,
)
    requires
        remaining > 0,
        spec_parse_str(d, pos) == Ok::<(Seq<char>, int), DecodeError>((name, slots_pos - 1)),
        slots_pos <= d.len(),
        spec_parse_slots(d, slots_pos, d[slots_pos - 1] as int) == Err::<
            (Seq<TagKind>, int),
            DecodeError,
        >(e),
    ensures
        spec_parse_schemas(d, pos, remaining) == Err::<(Seq<SchemaView>, int), DecodeError>(e),
{
}

impl SSPMSerializer {
    /// Read the schema registry: an entry count, then that many entries
    /// stored by positional index.
    #[verifier::loop_isolation(false)]
    pub fn read_schemas(parser: &mut BinaryReader) -> (r: Result<Vec<ObjectDefinition>, DecodeError>)
        ensures
            final(parser).data@ == old(parser).data@,
            ({
                let d = old(parser).data@;
                let p = old(parser).pos as int;
                if p + 1 > d.len() {
                    r == Err::<Vec<ObjectDefinition>, DecodeError>(DecodeError::TruncatedInput)
                } else {
                    match spec_parse_schemas(d, p + 1, d[p] as int) {
                        Ok((ss, np)) => r matches Ok(v) && schemas_of(v@) == ss && final(parser).pos == np,
                        Err(e) => r matches Err(e2) && e2 == e,
                    }
                }
            }),
    {
        let ghost d = parser.data@;
        let count = match parser.read_u8() {
            Ok(v) => v,
            Err(e) => { return Err(e) },
        };
        let mut defs: Vec<ObjectDefinition> = Vec::new();
        let mut k: usize = 0;
        proof {
            match spec_parse_schemas(d, parser.pos as int, count as int) {
                Ok((ss, np)) => {
                    assert(schemas_of(defs@) + ss =~= ss);
                },
                Err(_) => {},
            }
        }
        while k < count as usize
            invariant
                k <= count as usize,
                d == old(parser).data@,
                parser.data@ == d,
                spec_parse_schemas(d, old(parser).pos + 1, count as int) == (match spec_parse_schemas(
                    d,
                    parser.pos as int,
                    count - k,
                ) {
                    Ok((ss, np)) => Ok::<_, DecodeError>((schemas_of(defs@) + ss, np)),
                    Err(e) => Err(e),
                }),
                old(parser).pos + 1 <= d.len(),
            decreases count - k,
        {
            let ghost pre_defs = defs@;
            let ghost pre_pos = parser.pos;
            let name = match parser.read_string() {
                Ok(v) => v,
                Err(e) => {
                    proof {
                        assert(spec_parse_str(d, pre_pos as int) == Err::<
                            (Seq<char>, int),
                            DecodeError,
                        >(e));
                        assert(spec_parse_schemas(d, pre_pos as int, count - k) == Err::<
                            (Seq<SchemaView>, int),
                            DecodeError,
                        >(e));
                    }
                    return Err(e);
                },
            };
            proof {
                assert(spec_parse_str(d, pre_pos as int) == Ok::<(Seq<char>, int), DecodeError>(
                    (name@, parser.pos as int),
                ));
            }
            let values = match parser.read_u8() {
                Ok(v) => v,
                Err(e) => {
                    proof {
                        assert(spec_parse_schemas(d, pre_pos as int, count - k) == Err::<
                            (Seq<SchemaView>, int),
                            DecodeError,
                        >(e));
                    }
                    return Err(e);
                },
            };
            let mut slots: Vec<ObjectType> = Vec::new();
            let mut j: usize = 0;
            let ghost slots_pos = parser.pos;
            proof {
                match spec_parse_slots(d, parser.pos as int, values as int) {
                    Ok((ks, np)) => {
                        assert(slot_kinds_seq(slots@) + ks =~= ks);
                    },
                    Err(_) => {},
                }
            }
            while j < values as usize
                invariant
                    j <= values as usize,
                    d == old(parser).data@,
                    parser.data@ == d,
                    slots@.len() == j,
                    spec_parse_slots(d, slots_pos as int, values as int) == (match spec_parse_slots(
                        d,
                        parser.pos as int,
                        values - j,
                    ) {
                        Ok((ks, np)) => Ok::<_, DecodeError>((slot_kinds_seq(slots@) + ks, np)),
                        Err(e) => Err(e),
                    }),
                decreases values - j,
            {
                let ghost pre_slots = slots@;
                let obj_type = match parser.read_u8() {
                    Ok(v) => v,
                    Err(e) => {
                        proof {
                            assert(spec_parse_slots(d, slots_pos as int, values as int) == Err::<
                                (Seq<TagKind>, int),
                                DecodeError,
                            >(e));
                            lemma_schema_entry_err(d, pre_pos as int, count - k, e, name@, slots_pos as int);
                        }
                        return Err(e);
                    },
                };
                let slot = match ObjectType::from_sspm(obj_type) {
                    Ok(v) => v,
                    Err(e) => {
                        proof {
                            assert(spec_parse_slots(d, slots_pos as int, values as int) == Err::<
                                (Seq<TagKind>, int),
                                DecodeError,
                            >(e));
                            assert(spec_parse_schemas(d, pre_pos as int, count - k) == Err::<
                                (Seq<SchemaView>, int),
                                DecodeError,
                            >(e));
                        }
                        return Err(e);
                    },
                };
                proof {
                    match spec_parse_slots(d, parser.pos as int, values - j - 1) {
                        Ok((ks, np)) => {
                            assert(slot_kinds_seq(pre_slots) + (seq![kind_of(slot)] + ks)
                                =~= slot_kinds_seq(pre_slots.push(slot)) + ks);
                        },
                        Err(_) => {},
                    }
                }
                slots.push(slot);
                j = j + 1;
            }
            proof {
                assert(spec_parse_slots(d, slots_pos as int, values as int) == Ok::<
                    (Seq<TagKind>, int),
                    DecodeError,
                >((slot_kinds_seq(slots@), parser.pos as int)));
            }
            let term = match parser.read_u8() {
                Ok(v) => v,
                Err(e) => {
                    proof {
                        assert(spec_parse_schemas(d, pre_pos as int, count - k) == Err::<
                            (Seq<SchemaView>, int),
                            DecodeError,
                        >(e));
                    }
                    return Err(e);
                },
            };
            if term != 0x00 {
                proof {
                    assert(spec_parse_schemas(d, pre_pos as int, count - k) == Err::<
                        (Seq<SchemaView>, int),
                        DecodeError,
                    >(DecodeError::InvalidEncoding));
                }
                return Err(DecodeError::InvalidEncoding);
            }
            let entry = ObjectDefinition { name, millisecond: 0, definitions: slots };
            proof {
                assert(slot_kinds(&entry) =~= slot_kinds_seq(entry.definitions@));
                match spec_parse_schemas(d, parser.pos as int, count - k - 1) {
                    Ok((ss, np)) => {
                        assert(schemas_of(pre_defs) + (seq![schema_view(&entry)] + ss)
                            =~= schemas_of(pre_defs.push(entry)) + ss);
                    },
                    Err(_) => {},
                }
            }
            defs.push(entry);
            k = k + 1;
        }
        proof {
            assert(schemas_of(defs@) + Seq::<SchemaView>::empty() =~= schemas_of(defs@));
        }
        Ok(defs)
    }

    /// Read the record stream up to the declared end offset: per record
    /// a timestamp, a schema id, and one value per schema slot; notes
    /// are projected, everything else is kept opaquely.
    #[verifier::loop_isolation(false)]
    #[verifier::rlimit(40)]
    pub fn read_records(
        parser: &mut BinaryReader,
        end: u64,
        schemas: &Vec<ObjectDefinition>,
    ) -> (r: Result<(Vec<Note>, Vec<ObjectDefinition>), DecodeError>)
        ensures
            final(parser).data@ == old(parser).data@,
            match spec_parse_records(
                old(parser).data@,
                old(parser).pos as int,
                end as int,
                schemas_of(schemas@),
            ) {
                Ok((ns, os)) => r matches Ok(p) && p.0@ == ns && records_of(p.1@) == os,
                Err(e) => r matches Err(e2) && e2 == e,
            },
    {
        let ghost d = parser.data@;
        let ghost s = schemas_of(schemas@);
        let mut notes: Vec<Note> = Vec::new();
        let mut objects: Vec<ObjectDefinition> = Vec::new();
        proof {
            match spec_parse_records(d, parser.pos as int, end as int, s) {
                Ok((ns, os)) => {
                    assert(notes@ + ns =~= ns);
                    assert(records_of(objects@) + os =~= os);
                },
                Err(_) => {},
            }
        }
        while parser.stream_position() < end
            invariant
                d == old(parser).data@,
                parser.data@ == d,
                s == schemas_of(schemas@),
                spec_parse_records(d, old(parser).pos as int, end as int, s) == (match spec_parse_records(
                    d,
                    parser.pos as int,
                    end as int,
                    s,
                ) {
                    Ok((ns, os)) => Ok::<_, DecodeError>(
                        (notes@ + ns, records_of(objects@) + os),
                    ),
                    Err(e) => Err(e),
                }),
            decreases end - parser.pos,
        {
            let ghost pre_pos = parser.pos;
            let ghost pre_notes = notes@;
            let ghost pre_objects = objects@;
            let ms = match parser.read_u32() {
                Ok(v) => v,
                Err(e) => { return Err(e) },
            };
            let definition = match parser.read_u8() {
                Ok(v) => v,
                Err(e) => { return Err(e) },
            };
            if definition as usize >= schemas.len() {
                return Err(DecodeError::InvalidEncoding);
            }
            proof {
                assert(slot_kinds(&schemas@[definition as int]) == s[definition as int].slots);
            }
            let rec = match Self::parse_definitions(&schemas[definition as usize], ms, parser) {
                Ok(v) => v,
                Err(e) => { return Err(e) },
            };
            proof {
                lemma_parse_fields_advances(d, pre_pos + 5, s[definition as int].slots);
            }
            if parser.stream_position() > end {
                return Err(DecodeError::InvalidEncoding);
            }
            let is_note = str_eq(rec.name.as_str(), "ssp_note");
            proof {
                assert(rec.name@ == s[definition as int].name);
            }
            if is_note {
                let note = match crate::map::Note::from_definition(rec) {
                    Ok(v) => v,
                    Err(e) => { return Err(e) },
                };
                proof {
                    match spec_parse_records(d, parser.pos as int, end as int, s) {
                        Ok((ns, os)) => {
                            assert(pre_notes + (seq![note] + ns) =~= pre_notes.push(note) + ns);
                        },
                        Err(_) => {},
                    }
                }
                notes.push(note);
            } else {
                proof {
                    match spec_parse_records(d, parser.pos as int, end as int, s) {
                        Ok((ns, os)) => {
                            assert(records_of(pre_objects) + (seq![rec@] + os) =~= records_of(
                                pre_objects.push(rec),
                            ) + os);
                        },
                        Err(_) => {},
                    }
                }
                objects.push(rec);
            }
        }
        proof {
            assert(notes@ + Seq::<Note>::empty() =~= notes@);
            assert(records_of(objects@) + Seq::<RecordView>::empty() =~= records_of(objects@));
        }
        Ok((notes, objects))
    }
}


/// The mapper names `k` consecutive short strings at `pos` declare.
pub open spec fn spec_parse_mappers(d: Seq<u8>, pos: int, k: int) -> Result<
    (Seq<Seq<char>>, int),
    DecodeError,
>
    decreases k,
{
    if k <= 0 {
        Ok((Seq::empty(), pos))
    } else {
        match spec_parse_str(d, pos) {
            Err(e) => Err(e),
            Ok((s, np)) => match spec_parse_mappers(d, np, k - 1) {
                Err(e) => Err(e),
                Ok((ss, fp)) => Ok((seq![s] + ss, fp)),
            },
        }
    }
}

/// The difficulty display name after walking `k` custom-data fields at
/// `pos`, starting from `dn`: each field is a name string, a type tag
/// resolved against the tag table, and a value of that kind; a
/// short-string field named `difficulty_name` overwrites the name.
pub open spec fn spec_parse_custom(d: Seq<u8>, pos: int, k: int, dn: Seq<char>) -> Result<
    (Seq<char>, int),
    DecodeError,
>
    decreases k,
{
    if k <= 0 {
        Ok((dn, pos))
    } else {
        match spec_parse_str(d, pos) {
            Err(e) => Err(e),
            Ok((name, p1)) => if p1 + 1 > d.len() {
                Err(DecodeError::TruncatedInput)
            } else {
                match tag_slot(d[p1]) {
                    None => Err(DecodeError::InvalidEncoding),
                    Some(kind) => match spec_parse_value(d, p1 + 1, kind) {
                        Err(e) => Err(e),
                        Ok((vv, p2)) => spec_parse_custom(
                            d,
                            p2,
                            k - 1,
                            if name == "difficulty_name"@ {
                                match vv {
                                    ValueView::Str(Some(text)) => text,
                                    _ => dn,
                                }
                            } else {
                                dn
                            },
                        ),
                    },
                }
            },
        }
    }
}

/// What decoding a whole SSPM stream yields: the fully materialized map
/// on success, and the error that stops the single linear pass
/// otherwise. The decoder returns `Ok` exactly when this does.
pub open spec fn spec_deserialize(d: Seq<u8>) -> Result<MapView, DecodeError> {
    if d.len() < 4 {
        Err(DecodeError::TruncatedInput)
    } else if d.subrange(0, 4) != magic_bytes() {
        Err(DecodeError::FormatError)
    } else if d.len() < 6 {
        Err(DecodeError::TruncatedInput)
    } else if !(d[4] == 2 && d[5] == 0) {
        Err(DecodeError::FormatError)
    } else if d.len() < 128 {
        Err(DecodeError::TruncatedInput)
    } else {
        let has_audio = d[45] == 1;
        let has_cover = d[46] == 1;
        let ao = u64_le(d[64], d[65], d[66], d[67], d[68], d[69], d[70], d[71]) as int;
        let al = u64_le(d[72], d[73], d[74], d[75], d[76], d[77], d[78], d[79]) as int;
        let co = u64_le(d[80], d[81], d[82], d[83], d[84], d[85], d[86], d[87]) as int;
        let cl = u64_le(d[88], d[89], d[90], d[91], d[92], d[93], d[94], d[95]) as int;
        let so = u64_le(d[96], d[97], d[98], d[99], d[100], d[101], d[102], d[103]) as int;
        let ro = u64_le(d[112], d[113], d[114], d[115], d[116], d[117], d[118], d[119]) as int;
        let rl = u64_le(d[120], d[121], d[122], d[123], d[124], d[125], d[126], d[127]) as int;
        match spec_parse_str(d, 128) {
            Err(e) => Err(e),
            Ok((id, p1)) => match spec_parse_str(d, p1) {
                Err(e) => Err(e),
                Ok((title, p2)) => match spec_parse_str(d, p2) {
                    Err(e) => Err(e),
                    Ok((song, p3)) => if p3 + 2 > d.len() {
                        Err(DecodeError::TruncatedInput)
                    } else {
                        match spec_parse_mappers(d, p3 + 2, u16_le(d[p3], d[p3 + 1]) as int) {
                            Err(e) => Err(e),
                            Ok((mappers, p4)) => if p4 + 2 > d.len() {
                                Err(DecodeError::TruncatedInput)
                            } else {
                                match spec_parse_custom(
                                    d,
                                    p4 + 2,
                                    u16_le(d[p4], d[p4 + 1]) as int,
                                    Seq::empty(),
                                ) {
                                    Err(e) => Err(e),
                                    Ok((dn, _)) => if has_audio && al > usize::MAX {
                                        Err(DecodeError::TruncatedInput)
                                    } else if has_audio && ao + al > d.len() {
                                        Err(DecodeError::TruncatedInput)
                                    } else if has_cover && cl > usize::MAX {
                                        Err(DecodeError::TruncatedInput)
                                    } else if has_cover && co + cl > d.len() {
                                        Err(DecodeError::TruncatedInput)
                                    } else if so + 1 > d.len() {
                                        Err(DecodeError::TruncatedInput)
                                    } else {
                                        match spec_parse_schemas(d, so + 1, d[so] as int) {
                                            Err(e) => Err(e),
                                            Ok((ss, _)) => if ro + rl > u64::MAX {
                                                Err(DecodeError::InvalidEncoding)
                                            } else {
                                                match spec_parse_records(d, ro, ro + rl, ss) {
                                                    Err(e) => Err(e),
                                                    Ok((notes, objs)) => Ok(
                                                        MapView {
                                                            id,
                                                            length: u32_le(
                                                                d[30],
                                                                d[31],
                                                                d[32],
                                                                d[33],
                                                            ),
                                                            title,
                                                            song,
                                                            artists: Seq::empty(),
                                                            difficulty: d[42],
                                                            difficulty_name: dn,
                                                            mappers,
                                                            audio: if has_audio && al > 0 {
                                                                Some(d.subrange(ao, ao + al))
                                                            } else {
                                                                None
                                                            },
                                                            cover: if has_cover {
                                                                d.subrange(co, co + cl)
                                                            } else {
                                                                Seq::empty()
                                                            },
                                                            notes,
                                                            objects: objs,
                                                            format: MapFormat::SSPM,
                                                        },
                                                    ),
                                                }
                                            },
                                        }
                                    },
                                }
                            },
                        }
                    },
                },
            },
        }
    }
}

/// The fixed-position fields of a stream's first 128 bytes: static
/// metadata and the offset table.
struct HeaderFields {
    millisecond: u32,
    difficulty: u8,
    has_audio: bool,
    has_cover: bool,
    audio_data_offset: u64,
    audio_data_length: u64,
    cover_data_offset: u64,
    cover_data_length: u64,
    object_definition_offset: u64,
    object_data_offset: u64,
    object_data_length: u64,
}

impl SSPMSerializer {
    /// Read the header, the static metadata and the offset table,
    /// leaving the position at the first string.
    #[verifier::rlimit(100)]
    #[verifier::spinoff_prover]
    fn read_header(reader: &mut BinaryReader) -> (r: Result<HeaderFields, DecodeError>)
        requires
            old(reader).pos == 0,
        ensures
            final(reader).data@ == old(reader).data@,
            ({
                let d = old(reader).data@;
                &&& (d.len() < 4 ==> (r matches Err(e) && e == DecodeError::TruncatedInput))
                &&& (d.len() >= 4 && d.subrange(0, 4) != magic_bytes() ==> (r matches Err(e)
                    && e == DecodeError::FormatError))
                &&& (d.len() >= 4 && d.subrange(0, 4) == magic_bytes() && d.len() < 6 ==> (
                r matches Err(e) && e == DecodeError::TruncatedInput))
                &&& (d.len() >= 6 && d.subrange(0, 4) == magic_bytes() && !(d[4] == 2 && d[5]
                    == 0) ==> (r matches Err(e) && e == DecodeError::FormatError))
                &&& (d.len() >= 6 && d.subrange(0, 4) == magic_bytes() && d[4] == 2 && d[5] == 0
                    && d.len() < 128 ==> (r matches Err(e) && e == DecodeError::TruncatedInput))
                &&& (d.len() >= 128 && d.subrange(0, 4) == magic_bytes() && d[4] == 2 && d[5] == 0
                    ==> (r matches Ok(h) && final(reader).pos == 128 && h.millisecond == u32_le(
                    d[30],
                    d[31],
                    d[32],
                    d[33],
                ) && h.difficulty == d[42] && h.has_audio == (d[45] == 1) && h.has_cover == (d[46]
                    == 1) && h.audio_data_offset == u64_le(
                    d[64],
                    d[65],
                    d[66],
                    d[67],
                    d[68],
                    d[69],
                    d[70],
                    d[71],
                ) && h.audio_data_length == u64_le(
                    d[72],
                    d[73],
                    d[74],
                    d[75],
                    d[76],
                    d[77],
                    d[78],
                    d[79],
                ) && h.cover_data_offset == u64_le(
                    d[80],
                    d[81],
                    d[82],
                    d[83],
                    d[84],
                    d[85],
                    d[86],
                    d[87],
                ) && h.cover_data_length == u64_le(
                    d[88],
                    d[89],
                    d[90],
                    d[91],
                    d[92],
                    d[93],
                    d[94],
                    d[95],
                ) && h.object_definition_offset == u64_le(
                    d[96],
                    d[97],
                    d[98],
                    d[99],
                    d[100],
                    d[101],
                    d[102],
                    d[103],
                ) && h.object_data_offset == u64_le(
                    d[112],
                    d[113],
                    d[114],
                    d[115],
                    d[116],
                    d[117],
                    d[118],
                    d[119],
                ) && h.object_data_length == u64_le(
                    d[120],
                    d[121],
                    d[122],
                    d[123],
                    d[124],
                    d[125],
                    d[126],
                    d[127],
                )))
            }),
    {
        let ghost d = reader.data@;
        let magic = match reader.read_exact(4) {
            Ok(v) => v,
            Err(e) => { return Err(e) },
        };
        if !(magic[0] == 0x53 && magic[1] == 0x53 && magic[2] == 0x2B && magic[3] == 0x6D) {
            proof {
                assert(d.subrange(0, 4) != magic_bytes());
            }
            return Err(DecodeError::FormatError);
        }
        proof {
            assert(d.subrange(0, 4) =~= magic_bytes());
        }
        let version = match reader.read_exact(2) {
            Ok(v) => v,
            Err(e) => { return Err(e) },
        };
        if !(version[0] == 0x02 && version[1] == 0x00) {
            return Err(DecodeError::FormatError);
        }
        match reader.read_exact(4) {
            Ok(_) => (),
            Err(e) => { return Err(e) },
        };
        let _hash = match reader.read_sha1() {
            Ok(v) => v,
            Err(e) => { return Err(e) },
        };
        let millisecond = match reader.read_u32() {
            Ok(v) => v,
            Err(e) => { return Err(e) },
        };
        let _note_count = match reader.read_u32() {
            Ok(v) => v,
            Err(e) => { return Err(e) },
        };
        let _object_count = match reader.read_u32() {
            Ok(v) => v,
            Err(e) => { return Err(e) },
        };
        let difficulty = match reader.read_u8() {
            Ok(v) => v,
            Err(e) => { return Err(e) },
        };
        let _star_rating = match reader.read_u16() {
            Ok(v) => v,
            Err(e) => { return Err(e) },
        };
        let has_audio = match reader.read_bool() {
            Ok(v) => v,
            Err(e) => { return Err(e) },
        };
        let has_cover = match reader.read_bool() {
            Ok(v) => v,
            Err(e) => { return Err(e) },
        };
        let _has_mod = match reader.read_bool() {
            Ok(v) => v,
            Err(e) => { return Err(e) },
        };
        let _custom_data_offset = match reader.read_u64() {
            Ok(v) => v,
            Err(e) => { return Err(e) },
        };
        let _custom_data_length = match reader.read_u64() {
            Ok(v) => v,
            Err(e) => { return Err(e) },
        };
        let audio_data_offset = match reader.read_u64() {
            Ok(v) => v,
            Err(e) => { return Err(e) },
        };
        let audio_data_length = match reader.read_u64() {
            Ok(v) => v,
            Err(e) => { return Err(e) },
        };
        let cover_data_offset = match reader.read_u64() {
            Ok(v) => v,
            Err(e) => { return Err(e) },
        };
        let cover_data_length = match reader.read_u64() {
            Ok(v) => v,
            Err(e) => { return Err(e) },
        };
        let object_definition_offset = match reader.read_u64() {
            Ok(v) => v,
            Err(e) => { return Err(e) },
        };
        let _object_definition_length = match reader.read_u64() {
            Ok(v) => v,
            Err(e) => { return Err(e) },
        };
        let object_data_offset = match reader.read_u64() {
            Ok(v) => v,
            Err(e) => { return Err(e) },
        };
        let object_data_length = match reader.read_u64() {
            Ok(v) => v,
            Err(e) => { return Err(e) },
        };
        Ok(
            HeaderFields {
                millisecond,
                difficulty,
                has_audio,
                has_cover,
                audio_data_offset,
                audio_data_length,
                cover_data_offset,
                cover_data_length,
                object_definition_offset,
                object_data_offset,
                object_data_length,
            },
        )
    }
}

impl SSPMSerializer {
    /// Read `count` mapper names.
    #[verifier::loop_isolation(false)]
    #[verifier::rlimit(100)]
    #[verifier::spinoff_prover]
    fn read_mappers(reader: &mut BinaryReader, count: u16) -> (r: Result<Vec<String>, DecodeError>)
        ensures
            final(reader).data@ == old(reader).data@,
            match spec_parse_mappers(old(reader).data@, old(reader).pos as int, count as int) {
                Ok((ss, fp)) => r matches Ok(v) && Seq::new(v@.len(), |j: int| v@[j]@) == ss
                    && final(reader).pos == fp,
                Err(e) => r matches Err(e2) && e2 == e,
            },
    {
        let ghost d = reader.data@;
        let ghost mstart = reader.pos;
        let mut mappers: Vec<String> = Vec::new();
        let mut i: usize = 0;
        proof {
            match spec_parse_mappers(d, mstart as int, count as int) {
                Ok((ss, fp)) => {
                    assert(Seq::new(0nat, |j: int| mappers@[j]@) + ss =~= ss);
                },
                Err(_) => {},
            }
        }
        while i < count as usize
            invariant
                i <= count as usize,
                reader.data@ == d,
                mappers@.len() == i,
                spec_parse_mappers(d, mstart as int, count as int) == (match spec_parse_mappers(
                    d,
                    reader.pos as int,
                    count - i,
                ) {
                    Ok((ss, fp)) => Ok::<_, DecodeError>(
                        (Seq::new(i as nat, |j: int| mappers@[j]@) + ss, fp),
                    ),
                    Err(e) => Err(e),
                }),
            decreases count - i,
        {
            let ghost pre_mappers = mappers@;
            let ghost pre_pos = reader.pos;
            let mapper = match reader.read_string() {
                Ok(v) => v,
                Err(e) => {
                    proof {
                        assert(spec_parse_str(d, pre_pos as int) == Err::<
                            (Seq<char>, int),
                            DecodeError,
                        >(e));
                    }
                    return Err(e);
                },
            };
            proof {
                assert(spec_parse_str(d, pre_pos as int) == Ok::<(Seq<char>, int), DecodeError>(
                    (mapper@, reader.pos as int),
                ));
                match spec_parse_mappers(d, reader.pos as int, count - i - 1) {
                    Ok((ss, fp)) => {
                        assert(Seq::new(i as nat, |j: int| pre_mappers[j]@) + (seq![mapper@] + ss)
                            =~= Seq::new(
                            (i + 1) as nat,
                            |j: int| pre_mappers.push(mapper)[j]@,
                        ) + ss);
                    },
                    Err(_) => {},
                }
            }
            mappers.push(mapper);
            i = i + 1;
        }
        proof {
            match spec_parse_mappers(d, mstart as int, count as int) {
                Ok((ss, fp)) => {
                    assert(Seq::new(mappers@.len(), |j: int| mappers@[j]@) + Seq::<
                        Seq<char>,
                    >::empty() =~= Seq::new(mappers@.len(), |j: int| mappers@[j]@));
                },
                Err(_) => {},
            }
        }
        Ok(mappers)
    }

    /// Walk `count` custom-data fields and keep the difficulty display
    /// name, if one is declared.
    #[verifier::loop_isolation(false)]
    #[verifier::rlimit(100)]
    #[verifier::spinoff_prover]
    fn read_custom_block(reader: &mut BinaryReader, count: u16) -> (r: Result<String, DecodeError>)
        ensures
            final(reader).data@ == old(reader).data@,
            match spec_parse_custom(
                old(reader).data@,
                old(reader).pos as int,
                count as int,
                Seq::empty(),
            ) {
                Ok((dn, fp)) => r matches Ok(v) && v@ == dn && final(reader).pos == fp,
                Err(e) => r matches Err(e2) && e2 == e,
            },
    {
        let ghost d = reader.data@;
        let ghost cstart = reader.pos;
        let mut difficulty_name = "".to_owned();
        proof {
            reveal_strlit("");
            assert(difficulty_name@ =~= Seq::<char>::empty());
        }
        let mut f: usize = 0;
        while f < count as usize
            invariant
                f <= count as usize,
                reader.data@ == d,
                spec_parse_custom(d, cstart as int, count as int, Seq::empty())
                    == spec_parse_custom(d, reader.pos as int, count - f, difficulty_name@),
            decreases count - f,
        {
            let ghost pre_pos = reader.pos;
            let ghost pre_dn = difficulty_name@;
            let field_name = match reader.read_string() {
                Ok(v) => v,
                Err(e) => {
                    proof {
                        assert(spec_parse_str(d, pre_pos as int) == Err::<
                            (Seq<char>, int),
                            DecodeError,
                        >(e));
                    }
                    return Err(e);
                },
            };
            proof {
                assert(spec_parse_str(d, pre_pos as int) == Ok::<(Seq<char>, int), DecodeError>(
                    (field_name@, reader.pos as int),
                ));
            }
            let tag = match reader.read_u8() {
                Ok(v) => v,
                Err(e) => { return Err(e) },
            };
            let data_type = match ObjectType::from_sspm(tag) {
                Ok(v) => v,
                Err(e) => { return Err(e) },
            };
            let value = match Self::parse_types(&data_type, reader) {
                Ok(v) => v,
                Err(e) => { return Err(e) },
            };
            if str_eq(field_name.as_str(), "difficulty_name") {
                if let ObjectType::Str(Some(text)) = value {
                    difficulty_name = text;
                } else {
                    proof {
                        assert(difficulty_name@ == pre_dn);
                    }
                }
            }
            f = f + 1;
        }
        Ok(difficulty_name)
    }
}

impl SSPMSerializer {
    /// Decode a full SSPM stream: header, static metadata, offset table,
    /// strings, custom data, media, schema registry, record stream. The
    /// call succeeds if and only if the whole-stream decode
    /// `spec_deserialize` does, yields exactly the map it describes, and
    /// fails with exactly its error otherwise.
    #[verifier::loop_isolation(false)]
    #[verifier::rlimit(100)]
    #[verifier::spinoff_prover]
    pub fn deserialize(data: Vec<u8>) -> (r: Result<GameMap, DecodeError>)
        ensures
            match spec_deserialize(data@) {
                Ok(v) => r matches Ok(m) && m@ == v,
                Err(e) => r matches Err(e2) && e2 == e,
            },
    {
        let ghost d = data@;
        let mut reader = BinaryReader::new(data);
        let h = match Self::read_header(&mut reader) {
            Ok(v) => v,
            Err(e) => { return Err(e) },
        };
        let millisecond = h.millisecond;
        let difficulty = h.difficulty;
        let has_audio = h.has_audio;
        let has_cover = h.has_cover;
        let audio_data_offset = h.audio_data_offset;
        let audio_data_length = h.audio_data_length;
        let cover_data_offset = h.cover_data_offset;
        let cover_data_length = h.cover_data_length;
        let object_definition_offset = h.object_definition_offset;
        let object_data_offset = h.object_data_offset;
        let object_data_length = h.object_data_length;
        let ghost id_pos = reader.pos;
        let map_id = match reader.read_string() {
            Ok(v) => v,
            Err(e) => {
                proof {
                    assert(spec_parse_str(d, 128) == Err::<(Seq<char>, int), DecodeError>(e));
                }
                return Err(e);
            },
        };
        proof {
            assert(id_pos == 128);
            assert(spec_parse_str(d, 128) == Ok::<(Seq<char>, int), DecodeError>(
                (map_id@, reader.pos as int),
            ));
        }
        let ghost title_pos = reader.pos;
        let map_name = match reader.read_string() {
            Ok(v) => v,
            Err(e) => { return Err(e) },
        };
        proof {
            assert(spec_parse_str(d, title_pos as int) == Ok::<(Seq<char>, int), DecodeError>(
                (map_name@, reader.pos as int),
            ));
        }
        let ghost song_pos = reader.pos;
        let song_name = match reader.read_string() {
            Ok(v) => v,
            Err(e) => { return Err(e) },
        };
        proof {
            assert(spec_parse_str(d, song_pos as int) == Ok::<(Seq<char>, int), DecodeError>(
                (song_name@, reader.pos as int),
            ));
        }
        let mappers_count = match reader.read_u16() {
            Ok(v) => v,
            Err(e) => { return Err(e) },
        };
        let mappers = match Self::read_mappers(&mut reader, mappers_count) {
            Ok(v) => v,
            Err(e) => { return Err(e) },
        };
        let custom_data_fields = match reader.read_u16() {
            Ok(v) => v,
            Err(e) => { return Err(e) },
        };
        let difficulty_name = match Self::read_custom_block(&mut reader, custom_data_fields) {
            Ok(v) => v,
            Err(e) => { return Err(e) },
        };
        let mut audio: Option<Vec<u8>> = None;
        if has_audio {
            match reader.seek(SeekFrom::Start(audio_data_offset)) {
                Ok(_) => (),
                Err(e) => { return Err(e) },
            };
            if audio_data_length > usize::MAX as u64 {
                return Err(DecodeError::TruncatedInput);
            }
            let buf = match reader.read_exact(audio_data_length as usize) {
                Ok(v) => v,
                Err(e) => { return Err(e) },
            };
            if buf.len() > 0 {
                audio = Some(buf);
            }
        }
        let mut cover: Vec<u8> = Vec::new();
        if has_cover {
            match reader.seek(SeekFrom::Start(cover_data_offset)) {
                Ok(_) => (),
                Err(e) => { return Err(e) },
            };
            if cover_data_length > usize::MAX as u64 {
                return Err(DecodeError::TruncatedInput);
            }
            cover = match reader.read_exact(cover_data_length as usize) {
                Ok(v) => v,
                Err(e) => { return Err(e) },
            };
        }
        match reader.seek(SeekFrom::Start(object_definition_offset)) {
            Ok(_) => (),
            Err(e) => { return Err(e) },
        };
        let object_definitions = match Self::read_schemas(&mut reader) {
            Ok(v) => v,
            Err(e) => { return Err(e) },
        };
        match reader.seek(SeekFrom::Start(object_data_offset)) {
            Ok(_) => (),
            Err(e) => { return Err(e) },
        };
        if object_data_length > u64::MAX - object_data_offset {
            return Err(DecodeError::InvalidEncoding);
        }
        let object_section_end = object_data_offset + object_data_length;
        let (notes, objects) = match Self::read_records(
            &mut reader,
            object_section_end,
            &object_definitions,
        ) {
            Ok(v) => v,
            Err(e) => { return Err(e) },
        };
        let m = GameMap {
            id: map_id,
            length: millisecond,
            title: map_name,
            song: song_name,
            artists: Vec::new(),
            difficulty,
            difficulty_name,
            mappers,
            audio,
            cover,
            notes,
            objects,
            format: MapFormat::SSPM,
        };
        proof {
            let v = spec_deserialize(d).unwrap();
            assert(m@.mappers =~= v.mappers);
            assert(m@.objects =~= records_of(m.objects@));
            assert(m@.artists =~= Seq::<Seq<char>>::empty());
            assert(m@ == v);
        }
        Ok(m)
    }
}


/// The bytes one note is written as: timestamp, the fixed schema id
/// zero, then the compact two-byte form when both axes are within a
/// hundredth of a byte-range integer, the exact eight-byte form
/// otherwise.
pub open spec fn spec_note_bytes(n: Note) -> Seq<u8> {
    u32_bytes(n.millisecond) + seq![0u8] + (if quantizable(n.position.x) && quantizable(
        n.position.y,
    ) {
        seq![0u8, compact_byte(n.position.x), compact_byte(n.position.y)]
    } else {
        seq![1u8] + u32_bytes(n.position.x) + u32_bytes(n.position.y)
    })
}

/// The bytes a note list is written as, in order.
pub open spec fn spec_notes_bytes(ns: Seq<Note>) -> Seq<u8>
    decreases ns.len(),
{
    if ns.len() == 0 {
        Seq::empty()
    } else {
        spec_note_bytes(ns[0]) + spec_notes_bytes(ns.drop_first())
    }
}

/// Appending one note appends its bytes.
pub proof fn lemma_notes_bytes_snoc(ns: Seq<Note>, n: Note)
    ensures
        spec_notes_bytes(ns.push(n)) == spec_notes_bytes(ns) + spec_note_bytes(n),
    decreases ns.len(),
{
    if ns.len() == 0 {
        assert(ns.push(n)[0] == n);
        assert(ns.push(n).drop_first() =~= Seq::<Note>::empty());
        assert(spec_notes_bytes(ns.push(n)) == spec_note_bytes(n) + spec_notes_bytes(
            Seq::<Note>::empty(),
        ));
        assert(spec_note_bytes(n) + Seq::<u8>::empty() =~= spec_note_bytes(n));
        assert(spec_notes_bytes(ns) + spec_note_bytes(n) =~= spec_note_bytes(n));
    } else {
        lemma_notes_bytes_snoc(ns.drop_first(), n);
        assert(ns.push(n).drop_first() =~= ns.drop_first().push(n));
        assert(ns.push(n)[0] == ns[0]);
        assert(spec_note_bytes(ns[0]) + (spec_notes_bytes(ns.drop_first()) + spec_note_bytes(n))
            =~= (spec_note_bytes(ns[0]) + spec_notes_bytes(ns.drop_first())) + spec_note_bytes(n));
    }
}

/// Every string and count of the map fits its length prefix; exactly
/// then the encoder succeeds.
pub open spec fn encodable(m: &GameMap) -> bool {
    &&& encode_utf8(m.id@).len() <= 0xFFFF
    &&& encode_utf8(m.title@).len() <= 0xFFFF
    &&& encode_utf8(m.song@).len() <= 0xFFFF
    &&& m.mappers@.len() <= 0xFFFF
    &&& (forall|i: int|
        0 <= i < m.mappers@.len() ==> encode_utf8(#[trigger] m.mappers@[i]@).len() <= 0xFFFF)
    &&& encode_utf8(m.difficulty_name@).len() <= 0xFFFF
    &&& m.notes@.len() <= 0xFFFFFFFF
    &&& m.notes@.len() + m.objects@.len() <= 0xFFFFFFFF
}

impl SSPMSerializer {
    /// Write one note of the record stream.
    fn write_note(w: &mut BinaryWriter, note: &Note)
        requires
            old(w).wf(),
        ensures
            final(w).wf(),
            final(w).data@ == write_at(old(w).data@, old(w).pos as int, spec_note_bytes(*note)),
            final(w).pos == old(w).pos + spec_note_bytes(*note).len(),
    {
        let ghost d0 = w.data@;
        let ghost p0 = w.pos as int;
        w.write_u32(note.millisecond);
        proof {
            lemma_write_at_concat(d0, p0, u32_bytes(note.millisecond), seq![0u8]);
        }
        w.write_u8(0x00);
        let ghost head = u32_bytes(note.millisecond) + seq![0u8];
        let qx = quantize(note.position.x);
        let qy = quantize(note.position.y);
        match (qx, qy) {
            (Some(a), Some(b)) => {
                proof {
                    lemma_write_at_concat(d0, p0, head, seq![0u8]);
                }
                w.write_bool(false);
                proof {
                    lemma_write_at_concat(d0, p0, head + seq![0u8], seq![a]);
                }
                w.write_u8(a);
                proof {
                    lemma_write_at_concat(d0, p0, head + seq![0u8] + seq![a], seq![b]);
                }
                w.write_u8(b);
                proof {
                    assert(head + seq![0u8] + seq![a] + seq![b] =~= spec_note_bytes(*note));
                }
            },
            _ => {
                proof {
                    lemma_write_at_concat(d0, p0, head, seq![1u8]);
                }
                w.write_bool(true);
                proof {
                    lemma_write_at_concat(d0, p0, head + seq![1u8], u32_bytes(note.position.x));
                }
                w.write_u32(note.position.x);
                proof {
                    lemma_write_at_concat(
                        d0,
                        p0,
                        head + seq![1u8] + u32_bytes(note.position.x),
                        u32_bytes(note.position.y),
                    );
                }
                w.write_u32(note.position.y);
                proof {
                    assert(head + seq![1u8] + u32_bytes(note.position.x) + u32_bytes(
                        note.position.y,
                    ) =~= spec_note_bytes(*note));
                }
            },
        }
    }

    /// Write the record stream of a map: its notes, in order.
    #[verifier::loop_isolation(false)]
    fn write_notes(w: &mut BinaryWriter, notes: &Vec<Note>)
        requires
            old(w).wf(),
        ensures
            final(w).wf(),
            final(w).data@ == write_at(old(w).data@, old(w).pos as int, spec_notes_bytes(notes@)),
            final(w).pos == old(w).pos + spec_notes_bytes(notes@).len(),
    {
        let ghost d0 = w.data@;
        let ghost p0 = w.pos as int;
        let n = notes.len();
        let mut i: usize = 0;
        proof {
            assert(notes@.take(0) =~= Seq::<Note>::empty());
            assert(w.data@ =~= write_at(d0, p0, spec_notes_bytes(notes@.take(0))));
        }
        while i < n
            invariant
                i <= n,
                w.wf(),
                w.data@ == write_at(d0, p0, spec_notes_bytes(notes@.take(i as int))),
                w.pos == p0 + spec_notes_bytes(notes@.take(i as int)).len(),
            decreases n - i,
        {
            Self::write_note(w, &notes[i]);
            proof {
                lemma_write_at_concat(
                    d0,
                    p0,
                    spec_notes_bytes(notes@.take(i as int)),
                    spec_note_bytes(notes@[i as int]),
                );
                lemma_notes_bytes_snoc(notes@.take(i as int), notes@[i as int]);
                assert(notes@.take(i as int).push(notes@[i as int]) =~= notes@.take(i + 1));
            }
            i = i + 1;
        }
        proof {
            assert(notes@.take(n as int) =~= notes@);
        }
    }
}


/// The first 48 bytes the encoder writes: magic, version, four unused
/// bytes, the zeroed hash, duration, note count, total record count,
/// difficulty, the zeroed star rating, and the three flags.
pub open spec fn spec_prelude_bytes(m: &GameMap) -> Seq<u8> {
    magic_bytes() + seq![0x02u8, 0x00u8] + seq![0u8, 0u8, 0u8, 0u8] + Seq::new(20, |i: int| 0u8)
        + u32_bytes(m.length) + u32_bytes(m.notes@.len() as u32) + u32_bytes(
        (m.notes@.len() + m.objects@.len()) as u32,
    ) + seq![m.difficulty] + u16_bytes(0) + seq![
        (if m.audio is Some {
            1u8
        } else {
            0u8
        }),
        (if m.cover@.len() > 0 {
            1u8
        } else {
            0u8
        }),
        0u8,
    ]
}

/// The custom-data block the encoder writes when a difficulty display
/// name is present: one field, named `difficulty_name`, typed as a
/// short string.
pub open spec fn spec_custom_bytes(m: &GameMap) -> Seq<u8> {
    u16_bytes(1) + u16_bytes(encode_utf8("difficulty_name"@).len() as u16) + encode_utf8(
        "difficulty_name"@,
    ) + seq![0x09u8] + u16_bytes(encode_utf8(m.difficulty_name@).len() as u16) + encode_utf8(
        m.difficulty_name@,
    )
}

/// The schema table the encoder always writes: one entry, the reserved
/// note name with a single 2D-vector slot and its terminator.
pub open spec fn spec_schema_bytes() -> Seq<u8> {
    seq![1u8] + u16_bytes(encode_utf8("ssp_note"@).len() as u16) + encode_utf8("ssp_note"@) + seq![
        0x01u8,
        0x07u8,
        0x00u8,
    ]
}

/// Appending bytes leaves every range of the existing stream unchanged.
proof fn lemma_append_keeps(x: Seq<u8>, y: Seq<u8>, a: int, b: int)
    requires
        0 <= a <= b <= x.len(),
    ensures
        (x + y).subrange(a, b) == x.subrange(a, b),
{
    assert((x + y).subrange(a, b) =~= x.subrange(a, b));
}

/// A stream range holding a value's eight little-endian bytes reads
/// back as that value.
proof fn lemma_slot_value(d: Seq<u8>, base: int, v: u64)
    requires
        0 <= base,
        base + 8 <= d.len(),
        d.subrange(base, base + 8) == u64_bytes(v),
    ensures
        u64_le(
            d[base],
            d[base + 1],
            d[base + 2],
            d[base + 3],
            d[base + 4],
            d[base + 5],
            d[base + 6],
            d[base + 7],
        ) == v,
{
    lemma_u64_round_trip(v);
    assert forall|i: int| 0 <= i < 8 implies d[base + i] == u64_bytes(v)[i] by {
        assert(d[base + i] == d.subrange(base, base + 8)[i]);
    }
}

/// A patch that leaves everything from byte 128 on unchanged leaves
/// every range above 128 unchanged.
proof fn lemma_patch_keeps(pre: Seq<u8>, post: Seq<u8>, a: int, b: int)
    requires
        pre.len() == post.len(),
        post.subrange(128, pre.len() as int) == pre.subrange(128, pre.len() as int),
        128 <= a <= b <= pre.len(),
    ensures
        post.subrange(a, b) == pre.subrange(a, b),
{
    assert forall|i: int| a <= i < b implies post[i] == pre[i] by {
        assert(post[i] == post.subrange(128, pre.len() as int)[i - 128]);
        assert(pre[i] == pre.subrange(128, pre.len() as int)[i - 128]);
    }
    assert(post.subrange(a, b) =~= pre.subrange(a, b));
}

impl SSPMSerializer {
    /// Write the header, the static metadata, and the ten zeroed
    /// offset-table slots: the fixed 128-byte prelude of a stream.
    #[verifier::loop_isolation(false)]
    fn write_prelude(writer: &mut BinaryWriter, map: &GameMap)
        requires
            old(writer).wf(),
            old(writer).data@.len() == 0,
            old(writer).pos == 0,
            map.notes@.len() + map.objects@.len() <= 0xFFFFFFFF,
            map.notes@.len() <= 0xFFFFFFFF,
        ensures
            final(writer).wf(),
            final(writer).pos == final(writer).data@.len(),
            final(writer).data@.len() == 128,
            final(writer).data@.subrange(0, 4) == magic_bytes(),
            final(writer).data@[4] == 2 && final(writer).data@[5] == 0,
            final(writer).data@.subrange(0, 48) == spec_prelude_bytes(map),
    {
        let magic: Vec<u8> = vec![0x53u8, 0x53u8, 0x2Bu8, 0x6Du8];
        writer.write_all(magic.as_slice());
        let version: Vec<u8> = vec![0x02u8, 0x00u8];
        writer.write_all(version.as_slice());
        let unused: Vec<u8> = vec![0u8, 0u8, 0u8, 0u8];
        writer.write_all(unused.as_slice());
        proof {
            assert(writer.data@.subrange(0, 4) =~= magic_bytes());
        }
        // The hash field is not used and written as zeros, as is the
        // star rating.
        let zero_hash: Vec<u8> = vec![
            0u8, 0u8, 0u8, 0u8, 0u8, 0u8, 0u8, 0u8, 0u8, 0u8, 0u8, 0u8, 0u8, 0u8, 0u8, 0u8, 0u8,
            0u8, 0u8, 0u8,
        ];
        writer.write_sha1(&zero_hash);
        writer.write_u32(map.length);
        writer.write_u32(map.notes.len() as u32);
        writer.write_u32((map.notes.len() as u64 + map.objects.len() as u64) as u32);
        writer.write_u8(map.difficulty);
        writer.write_u16(0);
        writer.write_bool(map.audio.is_some());
        writer.write_bool(map.cover.len() > 0);
        writer.write_bool(false);
        proof {
            assert(writer.pos == 48);
            assert(writer.pos == writer.data@.len());
            assert(writer.data@.subrange(0, 4) =~= magic_bytes());
            assert(writer.data@ =~= spec_prelude_bytes(map));
        }
        let mut z: usize = 0;
        while z < 10
            invariant
                z <= 10,
                writer.wf(),
                writer.pos == writer.data@.len(),
                writer.data@.len() == 48 + 8 * z,
                writer.data@.subrange(0, 4) == magic_bytes(),
                writer.data@[4] == 2 && writer.data@[5] == 0,
                writer.data@.subrange(0, 48) == spec_prelude_bytes(map),
            decreases 10 - z,
        {
            let ghost before = writer.data@;
            writer.write_u64(0);
            proof {
                lemma_write_append(before, u64_bytes(0));
                assert(writer.data@.subrange(0, 4) =~= magic_bytes());
                assert(writer.data@.subrange(0, 48) =~= before.subrange(0, 48));
            }
            z = z + 1;
        }
    }

    /// Write the strings section: map id, map name, song name, and the
    /// mapper names behind their count.
    #[verifier::loop_isolation(false)]
    fn write_strings(writer: &mut BinaryWriter, map: &GameMap)
        requires
            old(writer).wf(),
            old(writer).pos == old(writer).data@.len(),
            encodable(map),
        ensures
            final(writer).wf(),
            final(writer).pos == final(writer).data@.len(),
            old(writer).data@.is_prefix_of(final(writer).data@),
    {
        let ghost base = writer.data@;
        writer.write_string(map.id.as_str());
        writer.write_string(map.title.as_str());
        writer.write_string(map.song.as_str());
        writer.write_u16(map.mappers.len() as u16);
        proof {
            assert(base.is_prefix_of(writer.data@));
        }
        let mut mi: usize = 0;
        while mi < map.mappers.len()
            invariant
                writer.wf(),
                writer.pos == writer.data@.len(),
                base.is_prefix_of(writer.data@),
            decreases map.mappers@.len() - mi,
        {
            let ghost before = writer.data@;
            writer.write_string(map.mappers[mi].as_str());
            proof {
                lemma_write_append(
                    before,
                    u16_bytes(encode_utf8(map.mappers@[mi as int]@).len() as u16) + encode_utf8(
                        map.mappers@[mi as int]@,
                    ),
                );
            }
            mi = mi + 1;
        }
    }

    /// Write the custom-data block: one short-string `difficulty_name`
    /// field when the map has a difficulty display name, a zero field
    /// count otherwise. Returns the block's (offset, length) pair for
    /// the offset table: the real pair, or zeros when the block is
    /// empty.
    fn write_custom(writer: &mut BinaryWriter, map: &GameMap) -> (pair: (u64, u64))
        requires
            old(writer).wf(),
            old(writer).pos == old(writer).data@.len(),
            encode_utf8(map.difficulty_name@).len() <= 0xFFFF,
        ensures
            final(writer).wf(),
            final(writer).pos == final(writer).data@.len(),
            if encode_utf8(map.difficulty_name@).len() > 0 {
                final(writer).data@ == old(writer).data@ + spec_custom_bytes(map) && pair.0 == old(
                    writer,
                ).data@.len() && pair.1 == spec_custom_bytes(map).len()
            } else {
                final(writer).data@ == old(writer).data@ + u16_bytes(0) && pair.0 == 0 && pair.1
                    == 0
            },
    {
        proof {
            reveal_strlit("difficulty_name");
            vstd::utf8::is_ascii_chars_encode_utf8(("difficulty_name")@);
        }
        if map.difficulty_name.as_str().as_bytes().len() > 0 {
            let custom_data_offset = writer.stream_position();
            let ghost c0 = writer.data@;
            writer.write_u16(1);
            let ghost c1 = writer.data@;
            writer.write_string("difficulty_name");
            let ghost c2 = writer.data@;
            writer.write_u8(0x09);
            let ghost c3 = writer.data@;
            writer.write_string(map.difficulty_name.as_str());
            let custom_data_length = writer.stream_position() - custom_data_offset;
            proof {
                lemma_write_append(c0, u16_bytes(1));
                lemma_write_append(
                    c1,
                    u16_bytes(encode_utf8(("difficulty_name")@).len() as u16) + encode_utf8(
                        ("difficulty_name")@,
                    ),
                );
                lemma_write_append(c2, seq![0x09u8]);
                lemma_write_append(
                    c3,
                    u16_bytes(encode_utf8(map.difficulty_name@).len() as u16) + encode_utf8(
                        map.difficulty_name@,
                    ),
                );
                assert(writer.data@ =~= c0 + spec_custom_bytes(map));
            }
            (custom_data_offset, custom_data_length)
        } else {
            let ghost c0 = writer.data@;
            writer.write_u16(0);
            proof {
                lemma_write_append(c0, u16_bytes(0));
            }
            (0, 0)
        }
    }

    /// Write the fixed schema table and return its (offset, length).
    fn write_schema_table(writer: &mut BinaryWriter) -> (pair: (u64, u64))
        requires
            old(writer).wf(),
            old(writer).pos == old(writer).data@.len(),
        ensures
            final(writer).wf(),
            final(writer).pos == final(writer).data@.len(),
            final(writer).data@ == old(writer).data@ + spec_schema_bytes(),
            pair.0 == old(writer).data@.len(),
            pair.1 == spec_schema_bytes().len(),
    {
        proof {
            reveal_strlit("ssp_note");
            vstd::utf8::is_ascii_chars_encode_utf8(("ssp_note")@);
        }
        let object_definition_offset = writer.stream_position();
        let ghost s0 = writer.data@;
        writer.write_u8(1);
        let ghost s1 = writer.data@;
        writer.write_string("ssp_note");
        let ghost s2 = writer.data@;
        let note_schema_tail: Vec<u8> = vec![0x01u8, 0x07u8, 0x00u8];
        writer.write_all(note_schema_tail.as_slice());
        let object_definition_length = writer.stream_position() - object_definition_offset;
        proof {
            lemma_write_append(s0, seq![1u8]);
            lemma_write_append(
                s1,
                u16_bytes(encode_utf8(("ssp_note")@).len() as u16) + encode_utf8(("ssp_note")@),
            );
            lemma_write_append(s2, note_schema_tail@);
            assert(note_schema_tail@ =~= seq![0x01u8, 0x07u8, 0x00u8]);
            assert(writer.data@ =~= s0 + spec_schema_bytes());
        }
        (object_definition_offset, object_definition_length)
    }

    /// Write the string block, the custom-data block, the media bytes
    /// and the fixed note schema, appending only. Returns the offsets
    /// and lengths for the offset table: custom data, audio, cover and
    /// schema table.
    #[verifier::loop_isolation(false)]
    #[verifier::rlimit(100)]
    #[verifier::spinoff_prover]
    fn write_sections(writer: &mut BinaryWriter, map: &GameMap) -> (offs: (
        u64,
        u64,
        u64,
        u64,
        u64,
        u64,
        u64,
        u64,
    ))
        requires
            old(writer).wf(),
            old(writer).pos == old(writer).data@.len(),
            encodable(map),
        ensures
            final(writer).wf(),
            final(writer).pos == final(writer).data@.len(),
            old(writer).data@.is_prefix_of(final(writer).data@),
            ({
                let fd = final(writer).data@;
                let base = old(writer).data@.len() as int;
                &&& (if encode_utf8(map.difficulty_name@).len() > 0 {
                    base <= offs.0 && offs.0 + offs.1 <= fd.len() && fd.subrange(
                        offs.0 as int,
                        offs.0 + offs.1,
                    ) == spec_custom_bytes(map)
                } else {
                    offs.0 == 0 && offs.1 == 0
                })
                &&& (match map.audio {
                    Some(a) => base <= offs.2 && offs.2 + offs.3 <= fd.len() && offs.3 == a@.len()
                        && fd.subrange(offs.2 as int, offs.2 + offs.3) == a@,
                    None => offs.3 == 0,
                })
                &&& (if map.cover@.len() > 0 {
                    base <= offs.4 && offs.4 + offs.5 <= fd.len() && offs.5 == map.cover@.len()
                        && fd.subrange(offs.4 as int, offs.4 + offs.5) == map.cover@
                } else {
                    offs.4 == 0 && offs.5 == 0
                })
                &&& base <= offs.6
                &&& offs.6 + offs.7 == fd.len()
                &&& fd.subrange(offs.6 as int, fd.len() as int) == spec_schema_bytes()
            }),
    {
        Self::write_strings(writer, map);
        let (custom_data_offset, custom_data_length) = Self::write_custom(writer, map);
        let ghost custom_done = writer.data@;
        let audio_offset = writer.stream_position();
        match &map.audio {
            Some(audio) => {
                let ghost a0 = writer.data@;
                writer.write_all(audio.as_slice());
                proof {
                    lemma_write_append(a0, audio@);
                }
            },
            None => (),
        }
        let audio_length = writer.stream_position() - audio_offset;
        let ghost audio_done = writer.data@;
        let mut cover_offset: u64 = 0;
        let mut cover_length: u64 = 0;
        if map.cover.len() > 0 {
            cover_offset = writer.stream_position();
            let ghost v0 = writer.data@;
            writer.write_all(map.cover.as_slice());
            cover_length = writer.stream_position() - cover_offset;
            proof {
                lemma_write_append(v0, map.cover@);
            }
        }
        let ghost cover_done = writer.data@;
        let (object_definition_offset, object_definition_length) = Self::write_schema_table(
            writer,
        );
        proof {
            if encode_utf8(map.difficulty_name@).len() > 0 {
                assert(writer.data@.subrange(
                    custom_data_offset as int,
                    custom_data_offset + custom_data_length,
                ) =~= spec_custom_bytes(map));
            }
            match &map.audio {
                Some(a) => {
                    assert(writer.data@.subrange(audio_offset as int, audio_offset + audio_length)
                        =~= a@);
                },
                None => {},
            }
            if map.cover@.len() > 0 {
                assert(writer.data@.subrange(cover_offset as int, cover_offset + cover_length)
                    =~= map.cover@);
            }
            assert(writer.data@.subrange(
                object_definition_offset as int,
                writer.data@.len() as int,
            ) =~= spec_schema_bytes());
            assert(old(writer).data@.is_prefix_of(writer.data@));
        }
        (
            custom_data_offset,
            custom_data_length,
            audio_offset,
            audio_length,
            cover_offset,
            cover_length,
            object_definition_offset,
            object_definition_length,
        )
    }

    /// Overwrite the ten offset-table slots in place with the real
    /// offsets and lengths.
    #[verifier::rlimit(100)]
    #[verifier::spinoff_prover]
    fn patch_offsets(
        writer: &mut BinaryWriter,
        offs: (u64, u64, u64, u64, u64, u64, u64, u64),
        ro: u64,
        rl: u64,
    )
        requires
            old(writer).wf(),
            old(writer).data@.len() >= 128,
        ensures
            final(writer).wf(),
            final(writer).data@.len() == old(writer).data@.len(),
            final(writer).pos == 128,
            final(writer).data@.subrange(0, 48) == old(writer).data@.subrange(0, 48),
            final(writer).data@.subrange(128, old(writer).data@.len() as int) == old(
                writer,
            ).data@.subrange(128, old(writer).data@.len() as int),
            final(writer).data@.subrange(48, 56) == u64_bytes(offs.0),
            final(writer).data@.subrange(56, 64) == u64_bytes(offs.1),
            final(writer).data@.subrange(64, 72) == u64_bytes(offs.2),
            final(writer).data@.subrange(72, 80) == u64_bytes(offs.3),
            final(writer).data@.subrange(80, 88) == u64_bytes(offs.4),
            final(writer).data@.subrange(88, 96) == u64_bytes(offs.5),
            final(writer).data@.subrange(96, 104) == u64_bytes(offs.6),
            final(writer).data@.subrange(104, 112) == u64_bytes(offs.7),
            final(writer).data@.subrange(112, 120) == u64_bytes(ro),
            final(writer).data@.subrange(120, 128) == u64_bytes(rl),
    {
        match writer.seek(SeekFrom::Start(48)) {
            Ok(_) => (),
            Err(_) => (),
        };
        let ghost len0 = old(writer).data@.len() as int;
        let ghost g0 = writer.data@;
        writer.write_u64(offs.0);
        proof {
            assert(writer.data@.subrange(48, 56) =~= u64_bytes(offs.0));
            assert(writer.data@.subrange(0, 48) =~= g0.subrange(0, 48));
            assert(writer.data@.subrange(128, len0) =~= g0.subrange(128, len0));
        }
        let ghost g1 = writer.data@;
        writer.write_u64(offs.1);
        proof {
            assert(writer.data@.subrange(56, 64) =~= u64_bytes(offs.1));
            assert(writer.data@.subrange(0, 56) =~= g1.subrange(0, 56));
            assert(writer.data@.subrange(128, len0) =~= g1.subrange(128, len0));
        }
        let ghost g2 = writer.data@;
        writer.write_u64(offs.2);
        proof {
            assert(writer.data@.subrange(64, 72) =~= u64_bytes(offs.2));
            assert(writer.data@.subrange(0, 64) =~= g2.subrange(0, 64));
            assert(writer.data@.subrange(128, len0) =~= g2.subrange(128, len0));
        }
        let ghost g3 = writer.data@;
        writer.write_u64(offs.3);
        proof {
            assert(writer.data@.subrange(72, 80) =~= u64_bytes(offs.3));
            assert(writer.data@.subrange(0, 72) =~= g3.subrange(0, 72));
            assert(writer.data@.subrange(128, len0) =~= g3.subrange(128, len0));
        }
        let ghost g4 = writer.data@;
        writer.write_u64(offs.4);
        proof {
            assert(writer.data@.subrange(80, 88) =~= u64_bytes(offs.4));
            assert(writer.data@.subrange(0, 80) =~= g4.subrange(0, 80));
            assert(writer.data@.subrange(128, len0) =~= g4.subrange(128, len0));
        }
        let ghost g5 = writer.data@;
        writer.write_u64(offs.5);
        proof {
            assert(writer.data@.subrange(88, 96) =~= u64_bytes(offs.5));
            assert(writer.data@.subrange(0, 88) =~= g5.subrange(0, 88));
            assert(writer.data@.subrange(128, len0) =~= g5.subrange(128, len0));
        }
        let ghost g6 = writer.data@;
        writer.write_u64(offs.6);
        proof {
            assert(writer.data@.subrange(96, 104) =~= u64_bytes(offs.6));
            assert(writer.data@.subrange(0, 96) =~= g6.subrange(0, 96));
            assert(writer.data@.subrange(128, len0) =~= g6.subrange(128, len0));
        }
        let ghost g7 = writer.data@;
        writer.write_u64(offs.7);
        proof {
            assert(writer.data@.subrange(104, 112) =~= u64_bytes(offs.7));
            assert(writer.data@.subrange(0, 104) =~= g7.subrange(0, 104));
            assert(writer.data@.subrange(128, len0) =~= g7.subrange(128, len0));
        }
        let ghost g8 = writer.data@;
        writer.write_u64(ro);
        proof {
            assert(writer.data@.subrange(112, 120) =~= u64_bytes(ro));
            assert(writer.data@.subrange(0, 112) =~= g8.subrange(0, 112));
            assert(writer.data@.subrange(128, len0) =~= g8.subrange(128, len0));
        }
        let ghost g9 = writer.data@;
        writer.write_u64(rl);
        proof {
            assert(writer.data@.subrange(120, 128) =~= u64_bytes(rl));
            assert(writer.data@.subrange(0, 120) =~= g9.subrange(0, 120));
            assert(writer.data@.subrange(128, len0) =~= g9.subrange(128, len0));
        }
        proof {
            assert(final(writer).data@.subrange(0, 48) =~= g0.subrange(0, 48));
            assert(final(writer).data@.subrange(48, 56) =~= u64_bytes(offs.0));
            assert(final(writer).data@.subrange(56, 64) =~= u64_bytes(offs.1));
            assert(final(writer).data@.subrange(64, 72) =~= u64_bytes(offs.2));
            assert(final(writer).data@.subrange(72, 80) =~= u64_bytes(offs.3));
            assert(final(writer).data@.subrange(80, 88) =~= u64_bytes(offs.4));
            assert(final(writer).data@.subrange(88, 96) =~= u64_bytes(offs.5));
            assert(final(writer).data@.subrange(96, 104) =~= u64_bytes(offs.6));
            assert(final(writer).data@.subrange(104, 112) =~= u64_bytes(offs.7));
            assert(final(writer).data@.subrange(112, 120) =~= u64_bytes(ro));
            assert(final(writer).data@.subrange(120, 128) =~= u64_bytes(rl));
        }
    }

    /// Patch the offset table and append the export signature, handing
    /// back the finished stream.
    #[verifier::rlimit(100)]
    #[verifier::spinoff_prover]
    fn finish_stream(
        w: BinaryWriter,
        map: &GameMap,
        offs: (u64, u64, u64, u64, u64, u64, u64, u64),
        object_data_offset: u64,
        object_data_length: u64,
    ) -> (out: Vec<u8>)
        requires
            w.wf(),
            w.pos == w.data@.len(),
            128 <= object_data_offset,
            object_data_offset + object_data_length == w.data@.len(),
            w.data@.subrange(
                object_data_offset as int,
                object_data_offset + object_data_length,
            ) == spec_notes_bytes(map.notes@),
            w.data@.subrange(0, 48) == spec_prelude_bytes(map),
            (if encode_utf8(map.difficulty_name@).len() > 0 {
                128 <= offs.0 && offs.0 + offs.1 <= w.data@.len() && w.data@.subrange(
                    offs.0 as int,
                    offs.0 + offs.1,
                ) == spec_custom_bytes(map)
            } else {
                offs.0 == 0 && offs.1 == 0
            }),
            (match map.audio {
                Some(a) => 128 <= offs.2 && offs.2 + offs.3 <= w.data@.len() && offs.3 == a@.len()
                    && w.data@.subrange(offs.2 as int, offs.2 + offs.3) == a@,
                None => offs.3 == 0,
            }),
            (if map.cover@.len() > 0 {
                128 <= offs.4 && offs.4 + offs.5 <= w.data@.len() && offs.5 == map.cover@.len()
                    && w.data@.subrange(offs.4 as int, offs.4 + offs.5) == map.cover@
            } else {
                offs.4 == 0 && offs.5 == 0
            }),
            128 <= offs.6,
            offs.6 + offs.7 <= w.data@.len(),
            w.data@.subrange(offs.6 as int, offs.6 + offs.7) == spec_schema_bytes(),
        ensures
                        out@.len() >= 128 && out@.subrange(0, 4) == magic_bytes()
                && out@[4] == 2 && out@[5] == 0,
            ({
                let ro = u64_le(
                    out@[112],
                    out@[113],
                    out@[114],
                    out@[115],
                    out@[116],
                    out@[117],
                    out@[118],
                    out@[119],
                ) as int;
                let rl = u64_le(
                    out@[120],
                    out@[121],
                    out@[122],
                    out@[123],
                    out@[124],
                    out@[125],
                    out@[126],
                    out@[127],
                ) as int;
                &&& 128 <= ro
                &&& ro + rl <= out@.len()
                &&& out@.subrange(ro, ro + rl) == spec_notes_bytes(map.notes@)
            }),
            out@.subrange(0, 48) == spec_prelude_bytes(map),
            ({
                let cdo = u64_le(out@[48], out@[49], out@[50], out@[51], out@[52], out@[53], out@[54], out@[55]) as int;
                let cdl = u64_le(out@[56], out@[57], out@[58], out@[59], out@[60], out@[61], out@[62], out@[63]) as int;
                let ao = u64_le(out@[64], out@[65], out@[66], out@[67], out@[68], out@[69], out@[70], out@[71]) as int;
                let al = u64_le(out@[72], out@[73], out@[74], out@[75], out@[76], out@[77], out@[78], out@[79]) as int;
                let co = u64_le(out@[80], out@[81], out@[82], out@[83], out@[84], out@[85], out@[86], out@[87]) as int;
                let cl = u64_le(out@[88], out@[89], out@[90], out@[91], out@[92], out@[93], out@[94], out@[95]) as int;
                let so = u64_le(out@[96], out@[97], out@[98], out@[99], out@[100], out@[101], out@[102], out@[103]) as int;
                let sl = u64_le(out@[104], out@[105], out@[106], out@[107], out@[108], out@[109], out@[110], out@[111]) as int;
                &&& (if encode_utf8(map.difficulty_name@).len() > 0 {
                    128 <= cdo && cdo + cdl <= out@.len() && out@.subrange(cdo, cdo + cdl)
                        == spec_custom_bytes(map)
                } else {
                    cdo == 0 && cdl == 0
                })
                &&& (match map.audio {
                    Some(a) => 128 <= ao && ao + al <= out@.len() && al == a@.len()
                        && out@.subrange(ao, ao + al) == a@,
                    None => al == 0,
                })
                &&& (if map.cover@.len() > 0 {
                    128 <= co && co + cl <= out@.len() && cl == map.cover@.len() && out@.subrange(
                        co,
                        co + cl,
                    ) == map.cover@
                } else {
                    co == 0 && cl == 0
                })
                &&& 128 <= so
                &&& so + sl <= out@.len()
                &&& out@.subrange(so, so + sl) == spec_schema_bytes()
            }),
    {
        let mut writer = w;
        let ghost an = writer.data@;
        Self::patch_offsets(&mut writer, offs, object_data_offset, object_data_length);
        proof {
            let ro = object_data_offset as int;
            let rl = object_data_length as int;
            assert(writer.data@.subrange(0, 4) =~= writer.data@.subrange(0, 48).subrange(0, 4));
            assert(an.subrange(0, 4) =~= an.subrange(0, 48).subrange(0, 4));
            assert(writer.data@.subrange(0, 4) =~= magic_bytes());
            assert(writer.data@[4] == writer.data@.subrange(0, 48)[4]);
            assert(writer.data@[5] == writer.data@.subrange(0, 48)[5]);
            assert(writer.data@[4] == 2 && writer.data@[5] == 0);
            lemma_patch_keeps(an, writer.data@, ro, ro + rl);
            assert(writer.data@.subrange(ro, ro + rl) =~= spec_notes_bytes(map.notes@));
            // The prelude and each section survive the patch.
            assert(writer.data@.subrange(0, 48) =~= spec_prelude_bytes(map));
            if encode_utf8(map.difficulty_name@).len() > 0 {
                lemma_patch_keeps(an, writer.data@, offs.0 as int, offs.0 + offs.1);
            }
            match &map.audio {
                Some(a) => {
                    lemma_patch_keeps(an, writer.data@, offs.2 as int, offs.2 + offs.3);
                },
                None => {},
            }
            if map.cover@.len() > 0 {
                lemma_patch_keeps(an, writer.data@, offs.4 as int, offs.4 + offs.5);
            }
            lemma_patch_keeps(an, writer.data@, offs.6 as int, offs.6 + offs.7);
        }
        match writer.seek(SeekFrom::End(0)) {
            Ok(_) => (),
            Err(_) => (),
        };
        proof {
            reveal_strlit("MM Export - 0.0.1");
            vstd::utf8::is_ascii_chars_encode_utf8(("MM Export - 0.0.1")@);
        }
        let ghost before_sig = writer.data@;
        writer.write_string("MM Export - 0.0.1");
        proof {
            let ro = object_data_offset as int;
            let rl = object_data_length as int;
            let sig = u16_bytes(encode_utf8(("MM Export - 0.0.1")@).len() as u16) + encode_utf8(
                ("MM Export - 0.0.1")@,
            );
            lemma_write_append(before_sig, sig);
            assert(writer.data@ == before_sig + sig);
            lemma_append_keeps(before_sig, sig, 0, 48);
            assert(writer.data@.subrange(0, 4) =~= writer.data@.subrange(0, 48).subrange(0, 4));
            assert(before_sig.subrange(0, 4) =~= before_sig.subrange(0, 48).subrange(0, 4));
            assert(writer.data@[4] == writer.data@.subrange(0, 48)[4]);
            assert(writer.data@[5] == writer.data@.subrange(0, 48)[5]);
            assert(before_sig[4] == before_sig.subrange(0, 48)[4]);
            assert(before_sig[5] == before_sig.subrange(0, 48)[5]);
            lemma_append_keeps(before_sig, sig, ro, ro + rl);
            lemma_append_keeps(before_sig, sig, 48, 56);
            lemma_append_keeps(before_sig, sig, 56, 64);
            lemma_append_keeps(before_sig, sig, 64, 72);
            lemma_append_keeps(before_sig, sig, 72, 80);
            lemma_append_keeps(before_sig, sig, 80, 88);
            lemma_append_keeps(before_sig, sig, 88, 96);
            lemma_append_keeps(before_sig, sig, 96, 104);
            lemma_append_keeps(before_sig, sig, 104, 112);
            lemma_append_keeps(before_sig, sig, 112, 120);
            lemma_append_keeps(before_sig, sig, 120, 128);
            lemma_slot_value(writer.data@, 48, offs.0);
            lemma_slot_value(writer.data@, 56, offs.1);
            lemma_slot_value(writer.data@, 64, offs.2);
            lemma_slot_value(writer.data@, 72, offs.3);
            lemma_slot_value(writer.data@, 80, offs.4);
            lemma_slot_value(writer.data@, 88, offs.5);
            lemma_slot_value(writer.data@, 96, offs.6);
            lemma_slot_value(writer.data@, 104, offs.7);
            lemma_slot_value(writer.data@, 112, object_data_offset);
            lemma_slot_value(writer.data@, 120, object_data_length);
            if encode_utf8(map.difficulty_name@).len() > 0 {
                lemma_append_keeps(before_sig, sig, offs.0 as int, offs.0 + offs.1);
            }
            match &map.audio {
                Some(a) => {
                    lemma_append_keeps(before_sig, sig, offs.2 as int, offs.2 + offs.3);
                },
                None => {},
            }
            if map.cover@.len() > 0 {
                lemma_append_keeps(before_sig, sig, offs.4 as int, offs.4 + offs.5);
            }
            lemma_append_keeps(before_sig, sig, offs.6 as int, offs.6 + offs.7);
        }
        writer.into_inner()
    }

    /// Write the full stream for an encodable map.
    #[verifier::rlimit(100)]
    #[verifier::spinoff_prover]
    fn encode_stream(map: &GameMap) -> (out: Vec<u8>)
        requires
            encodable(map),
        ensures
                        out@.len() >= 128 && out@.subrange(0, 4) == magic_bytes()
                && out@[4] == 2 && out@[5] == 0,
            ({
                let ro = u64_le(
                    out@[112],
                    out@[113],
                    out@[114],
                    out@[115],
                    out@[116],
                    out@[117],
                    out@[118],
                    out@[119],
                ) as int;
                let rl = u64_le(
                    out@[120],
                    out@[121],
                    out@[122],
                    out@[123],
                    out@[124],
                    out@[125],
                    out@[126],
                    out@[127],
                ) as int;
                &&& 128 <= ro
                &&& ro + rl <= out@.len()
                &&& out@.subrange(ro, ro + rl) == spec_notes_bytes(map.notes@)
            }),
            out@.subrange(0, 48) == spec_prelude_bytes(map),
            ({
                let cdo = u64_le(out@[48], out@[49], out@[50], out@[51], out@[52], out@[53], out@[54], out@[55]) as int;
                let cdl = u64_le(out@[56], out@[57], out@[58], out@[59], out@[60], out@[61], out@[62], out@[63]) as int;
                let ao = u64_le(out@[64], out@[65], out@[66], out@[67], out@[68], out@[69], out@[70], out@[71]) as int;
                let al = u64_le(out@[72], out@[73], out@[74], out@[75], out@[76], out@[77], out@[78], out@[79]) as int;
                let co = u64_le(out@[80], out@[81], out@[82], out@[83], out@[84], out@[85], out@[86], out@[87]) as int;
                let cl = u64_le(out@[88], out@[89], out@[90], out@[91], out@[92], out@[93], out@[94], out@[95]) as int;
                let so = u64_le(out@[96], out@[97], out@[98], out@[99], out@[100], out@[101], out@[102], out@[103]) as int;
                let sl = u64_le(out@[104], out@[105], out@[106], out@[107], out@[108], out@[109], out@[110], out@[111]) as int;
                &&& (if encode_utf8(map.difficulty_name@).len() > 0 {
                    128 <= cdo && cdo + cdl <= out@.len() && out@.subrange(cdo, cdo + cdl)
                        == spec_custom_bytes(map)
                } else {
                    cdo == 0 && cdl == 0
                })
                &&& (match map.audio {
                    Some(a) => 128 <= ao && ao + al <= out@.len() && al == a@.len()
                        && out@.subrange(ao, ao + al) == a@,
                    None => al == 0,
                })
                &&& (if map.cover@.len() > 0 {
                    128 <= co && co + cl <= out@.len() && cl == map.cover@.len() && out@.subrange(
                        co,
                        co + cl,
                    ) == map.cover@
                } else {
                    co == 0 && cl == 0
                })
                &&& 128 <= so
                &&& so + sl <= out@.len()
                &&& out@.subrange(so, so + sl) == spec_schema_bytes()
            }),
    {
        let mut writer = BinaryWriter::new();
        Self::write_prelude(&mut writer, map);
        let ghost prelude = writer.data@;
        let offs = Self::write_sections(&mut writer, map);
        let object_data_offset = writer.stream_position();
        let ghost pre_notes = writer.data@;
        proof {
            assert(pre_notes.subrange(0, prelude.len() as int) =~= prelude);
            assert(pre_notes.subrange(0, 4) =~= prelude.subrange(0, 4));
            assert(pre_notes[4] == 2 && pre_notes[5] == 0);
            assert(object_data_offset >= 128);
        }
        Self::write_notes(&mut writer, &map.notes);
        let object_data_length = writer.stream_position() - object_data_offset;
        let ghost an = pre_notes + spec_notes_bytes(map.notes@);
        proof {
            lemma_write_append(pre_notes, spec_notes_bytes(map.notes@));
            assert(writer.data@ == an);
            assert(an.subrange(object_data_offset as int, object_data_offset + object_data_length)
                =~= spec_notes_bytes(map.notes@));
        }
        proof {
            // Each earlier region survives the notes append.
            lemma_append_keeps(pre_notes, spec_notes_bytes(map.notes@), 0, 48);
            assert(writer.data@.subrange(0, 48) =~= prelude.subrange(0, 48));
            if encode_utf8(map.difficulty_name@).len() > 0 {
                lemma_append_keeps(
                    pre_notes,
                    spec_notes_bytes(map.notes@),
                    offs.0 as int,
                    offs.0 + offs.1,
                );
            }
            match &map.audio {
                Some(a) => {
                    lemma_append_keeps(
                        pre_notes,
                        spec_notes_bytes(map.notes@),
                        offs.2 as int,
                        offs.2 + offs.3,
                    );
                },
                None => {},
            }
            if map.cover@.len() > 0 {
                lemma_append_keeps(
                    pre_notes,
                    spec_notes_bytes(map.notes@),
                    offs.4 as int,
                    offs.4 + offs.5,
                );
            }
            lemma_append_keeps(
                pre_notes,
                spec_notes_bytes(map.notes@),
                offs.6 as int,
                offs.6 + offs.7,
            );
        }
        Self::finish_stream(writer, map, offs, object_data_offset, object_data_length)
    }

    /// Encode a map into an SSPM stream: header, static metadata, a
    /// placeholder offset table, strings, custom data, media, the fixed
    /// note schema, the note stream, then the offset table patched in
    /// place and a trailing export signature. Fails exactly when a
    /// string or a count does not fit its length prefix.
    pub fn serialize(map: &GameMap) -> (r: Result<Vec<u8>, EncodeError>)
        ensures
            r is Ok <==> encodable(map),
            r matches Ok(out) ==> out@.len() >= 128 && out@.subrange(0, 4) == magic_bytes()
                && out@[4] == 2 && out@[5] == 0,
            r matches Ok(out) ==> ({
                let ro = u64_le(
                    out@[112],
                    out@[113],
                    out@[114],
                    out@[115],
                    out@[116],
                    out@[117],
                    out@[118],
                    out@[119],
                ) as int;
                let rl = u64_le(
                    out@[120],
                    out@[121],
                    out@[122],
                    out@[123],
                    out@[124],
                    out@[125],
                    out@[126],
                    out@[127],
                ) as int;
                &&& 128 <= ro
                &&& ro + rl <= out@.len()
                &&& out@.subrange(ro, ro + rl) == spec_notes_bytes(map.notes@)
            }),
            r matches Ok(out) ==> out@.subrange(0, 48) == spec_prelude_bytes(map),
            r matches Ok(out) ==> ({
                let cdo = u64_le(out@[48], out@[49], out@[50], out@[51], out@[52], out@[53], out@[54], out@[55]) as int;
                let cdl = u64_le(out@[56], out@[57], out@[58], out@[59], out@[60], out@[61], out@[62], out@[63]) as int;
                let ao = u64_le(out@[64], out@[65], out@[66], out@[67], out@[68], out@[69], out@[70], out@[71]) as int;
                let al = u64_le(out@[72], out@[73], out@[74], out@[75], out@[76], out@[77], out@[78], out@[79]) as int;
                let co = u64_le(out@[80], out@[81], out@[82], out@[83], out@[84], out@[85], out@[86], out@[87]) as int;
                let cl = u64_le(out@[88], out@[89], out@[90], out@[91], out@[92], out@[93], out@[94], out@[95]) as int;
                let so = u64_le(out@[96], out@[97], out@[98], out@[99], out@[100], out@[101], out@[102], out@[103]) as int;
                let sl = u64_le(out@[104], out@[105], out@[106], out@[107], out@[108], out@[109], out@[110], out@[111]) as int;
                &&& (if encode_utf8(map.difficulty_name@).len() > 0 {
                    128 <= cdo && cdo + cdl <= out@.len() && out@.subrange(cdo, cdo + cdl)
                        == spec_custom_bytes(map)
                } else {
                    cdo == 0 && cdl == 0
                })
                &&& (match map.audio {
                    Some(a) => 128 <= ao && ao + al <= out@.len() && al == a@.len()
                        && out@.subrange(ao, ao + al) == a@,
                    None => al == 0,
                })
                &&& (if map.cover@.len() > 0 {
                    128 <= co && co + cl <= out@.len() && cl == map.cover@.len() && out@.subrange(
                        co,
                        co + cl,
                    ) == map.cover@
                } else {
                    co == 0 && cl == 0
                })
                &&& 128 <= so
                &&& so + sl <= out@.len()
                &&& out@.subrange(so, so + sl) == spec_schema_bytes()
            }),
    {
        if map.id.as_str().as_bytes().len() > 0xFFFF || map.title.as_str().as_bytes().len()
            > 0xFFFF || map.song.as_str().as_bytes().len() > 0xFFFF
            || map.difficulty_name.as_str().as_bytes().len() > 0xFFFF {
            return Err(EncodeError::TooLarge);
        }
        if map.mappers.len() > 0xFFFF {
            return Err(EncodeError::TooLarge);
        }
        let mut c: usize = 0;
        while c < map.mappers.len()
            invariant
                c <= map.mappers@.len(),
                forall|i: int|
                    0 <= i < c ==> encode_utf8(#[trigger] map.mappers@[i]@).len() <= 0xFFFF,
            decreases map.mappers@.len() - c,
        {
            if map.mappers[c].as_str().as_bytes().len() > 0xFFFF {
                return Err(EncodeError::TooLarge);
            }
            proof {
                assert(encode_utf8(map.mappers@[c as int]@).len() <= 0xFFFF);
            }
            c = c + 1;
        }
        if map.notes.len() as u64 > 0xFFFFFFFF {
            return Err(EncodeError::TooLarge);
        }
        if map.objects.len() as u64 > 0xFFFFFFFF - map.notes.len() as u64 {
            return Err(EncodeError::TooLarge);
        }
        Ok(Self::encode_stream(map))
    }
}


/// Whole-file parser for SSPM streams already read into memory; the
/// file reading itself belongs to the caller.
pub struct SSPMParser;

impl SSPMParser {
    /// Decode a full SSPM stream. Equivalent to
    /// `SSPMSerializer::deserialize`.
    pub fn parse(data: Vec<u8>) -> (r: Result<GameMap, DecodeError>)
        ensures
            match spec_deserialize(data@) {
                Ok(v) => r matches Ok(m) && m@ == v,
                Err(e) => r matches Err(e2) && e2 == e,
            },
    {
        SSPMSerializer::deserialize(data)
    }
}

} // verus!
