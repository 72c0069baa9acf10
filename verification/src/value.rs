use crate::error::DecodeError;
use vstd::prelude::*;

verus! {

/// A 2D position; each axis is the bit pattern of a single-precision
/// value (see `fbits`).
#[derive(Clone, Copy, Debug, PartialEq, Eq, Structural)]
pub struct Vec2 {
    pub x: u32,
    pub y: u32,
}

/// A 3D position, declared in the tag space but never decoded.
#[derive(Clone, Copy, Debug, PartialEq, Eq, Structural)]
pub struct Vec3 {
    pub x: u32,
    pub y: u32,
    pub z: u32,
}

/// One typed field. `None` is an unpopulated slot describing how a value
/// is read (a schema entry); `Some` is a populated value. Floats are
/// carried as their bit patterns and never interpreted as numbers.
#[derive(Debug, PartialEq)]
pub enum ObjectType {
    U8(Option<u8>),
    U16(Option<u16>),
    U32(Option<u32>),
    U64(Option<u64>),
    F32(Option<u32>),
    F64(Option<u64>),
    Vec2(Option<Vec2>),
    Buf(Option<Vec<u8>>),
    Str(Option<String>),
    LongBuf(Option<Vec<u8>>),
    LongStr(Option<String>),
    I64(Option<i64>),
    Vec3(Option<Vec3>),
    Nested(Option<Vec<ObjectType>>),
}

/// The kind of a typed field, with the payload abstracted away.
#[derive(Clone, Copy, Debug, PartialEq, Eq, Structural)]
pub enum TagKind {
    U8,
    U16,
    U32,
    U64,
    F32,
    F64,
    Vec2,
    Buf,
    Str,
    LongBuf,
    LongStr,
    I64,
    Vec3,
    Nested,
}

/// The kind of a field value or slot.
pub open spec fn kind_of(v: ObjectType) -> TagKind {
    match v {
        ObjectType::U8(_) => TagKind::U8,
        ObjectType::U16(_) => TagKind::U16,
        ObjectType::U32(_) => TagKind::U32,
        ObjectType::U64(_) => TagKind::U64,
        ObjectType::F32(_) => TagKind::F32,
        ObjectType::F64(_) => TagKind::F64,
        ObjectType::Vec2(_) => TagKind::Vec2,
        ObjectType::Buf(_) => TagKind::Buf,
        ObjectType::Str(_) => TagKind::Str,
        ObjectType::LongBuf(_) => TagKind::LongBuf,
        ObjectType::LongStr(_) => TagKind::LongStr,
        ObjectType::I64(_) => TagKind::I64,
        ObjectType::Vec3(_) => TagKind::Vec3,
        ObjectType::Nested(_) => TagKind::Nested,
    }
}

/// The mathematical reading of one typed field: buffers as byte
/// sequences, strings as character sequences. A nested sequence is never
/// populated by any decoder, so its payload carries no view.
pub ghost enum ValueView {
    U8(Option<u8>),
    U16(Option<u16>),
    U32(Option<u32>),
    U64(Option<u64>),
    F32(Option<u32>),
    F64(Option<u64>),
    Vec2(Option<Vec2>),
    Buf(Option<Seq<u8>>),
    Str(Option<Seq<char>>),
    LongBuf(Option<Seq<u8>>),
    LongStr(Option<Seq<char>>),
    I64(Option<i64>),
    Vec3(Option<Vec3>),
    Nested,
}

impl View for ObjectType {
    type V = ValueView;

    open spec fn view(&self) -> ValueView {
        match self {
            ObjectType::U8(v) => ValueView::U8(*v),
            ObjectType::U16(v) => ValueView::U16(*v),
            ObjectType::U32(v) => ValueView::U32(*v),
            ObjectType::U64(v) => ValueView::U64(*v),
            ObjectType::F32(v) => ValueView::F32(*v),
            ObjectType::F64(v) => ValueView::F64(*v),
            ObjectType::Vec2(v) => ValueView::Vec2(*v),
            ObjectType::Buf(v) => ValueView::Buf(
                match v {
                    Some(b) => Some(b@),
                    None => None,
                },
            ),
            ObjectType::Str(v) => ValueView::Str(
                match v {
                    Some(s) => Some(s@),
                    None => None,
                },
            ),
            ObjectType::LongBuf(v) => ValueView::LongBuf(
                match v {
                    Some(b) => Some(b@),
                    None => None,
                },
            ),
            ObjectType::LongStr(v) => ValueView::LongStr(
                match v {
                    Some(s) => Some(s@),
                    None => None,
                },
            ),
            ObjectType::I64(v) => ValueView::I64(*v),
            ObjectType::Vec3(v) => ValueView::Vec3(*v),
            ObjectType::Nested(_) => ValueView::Nested,
        }
    }
}

/// The empty slot a schema type tag denotes, or `None` for a tag outside
/// the table.
pub open spec fn tag_slot(value: u8) -> Option<TagKind> {
    match value {
        0x01 => Some(TagKind::U8),
        0x02 => Some(TagKind::U16),
        0x03 => Some(TagKind::U32),
        0x04 => Some(TagKind::U64),
        0x05 => Some(TagKind::F32),
        0x06 => Some(TagKind::F64),
        0x07 => Some(TagKind::Vec2),
        0x08 => Some(TagKind::Buf),
        0x09 => Some(TagKind::Str),
        0x0A => Some(TagKind::LongBuf),
        0x0B => Some(TagKind::LongStr),
        0x0C => Some(TagKind::Nested),
        _ => None,
    }
}

impl ObjectType {
    /// Resolve a schema type tag to an unpopulated slot. A tag outside
    /// the table is an `InvalidEncoding` error.
    pub fn from_sspm(value: u8) -> (r: Result<ObjectType, DecodeError>)
        ensures
            match tag_slot(value) {
                Some(k) => r matches Ok(v) && kind_of(v) == k && v@ == empty_view(k),
                None => r == Err::<ObjectType, DecodeError>(DecodeError::InvalidEncoding),
            },
    {
        match value {
            0x01 => Ok(ObjectType::U8(None)),
            0x02 => Ok(ObjectType::U16(None)),
            0x03 => Ok(ObjectType::U32(None)),
            0x04 => Ok(ObjectType::U64(None)),
            0x05 => Ok(ObjectType::F32(None)),
            0x06 => Ok(ObjectType::F64(None)),
            0x07 => Ok(ObjectType::Vec2(None)),
            0x08 => Ok(ObjectType::Buf(None)),
            0x09 => Ok(ObjectType::Str(None)),
            0x0A => Ok(ObjectType::LongBuf(None)),
            0x0B => Ok(ObjectType::LongStr(None)),
            0x0C => Ok(ObjectType::Nested(None)),
            _ => Err(DecodeError::InvalidEncoding),
        }
    }
}

/// The view of the unpopulated slot of each kind.
pub open spec fn empty_view(k: TagKind) -> ValueView {
    match k {
        TagKind::U8 => ValueView::U8(None),
        TagKind::U16 => ValueView::U16(None),
        TagKind::U32 => ValueView::U32(None),
        TagKind::U64 => ValueView::U64(None),
        TagKind::F32 => ValueView::F32(None),
        TagKind::F64 => ValueView::F64(None),
        TagKind::Vec2 => ValueView::Vec2(None),
        TagKind::Buf => ValueView::Buf(None),
        TagKind::Str => ValueView::Str(None),
        TagKind::LongBuf => ValueView::LongBuf(None),
        TagKind::LongStr => ValueView::LongStr(None),
        TagKind::I64 => ValueView::I64(None),
        TagKind::Vec3 => ValueView::Vec3(None),
        TagKind::Nested => ValueView::Nested,
    }
}

/// A decoded generic record, or (with `millisecond` zero and unpopulated
/// `definitions`) a schema entry: a record name and its field slots.
#[derive(Debug, PartialEq)]
pub struct ObjectDefinition {
    pub name: String,
    pub millisecond: u32,
    pub definitions: Vec<ObjectType>,
}

/// The mathematical reading of a generic record.
pub ghost struct RecordView {
    pub name: Seq<char>,
    pub millisecond: u32,
    pub fields: Seq<ValueView>,
}

impl View for ObjectDefinition {
    type V = RecordView;

    open spec fn view(&self) -> RecordView {
        RecordView {
            name: self.name@,
            millisecond: self.millisecond,
            fields: Seq::new(self.definitions@.len(), |i: int| self.definitions@[i]@),
        }
    }
}

/// The kinds of a list of slots, in order.
pub open spec fn slot_kinds_seq(s: Seq<ObjectType>) -> Seq<TagKind> {
    Seq::new(s.len(), |i: int| kind_of(s[i]))
}

/// The kinds of a schema entry's slots, in order.
pub open spec fn slot_kinds(d: &ObjectDefinition) -> Seq<TagKind> {
    Seq::new(d.definitions@.len(), |i: int| kind_of(d.definitions@[i]))
}

/// A schema entry as the record-stream parser reads it: the record name
/// and the ordered kinds of its field slots.
pub ghost struct SchemaView {
    pub name: Seq<char>,
    pub slots: Seq<TagKind>,
}

/// The schema a registry entry declares.
pub open spec fn schema_view(d: &ObjectDefinition) -> SchemaView {
    SchemaView { name: d.name@, slots: slot_kinds(d) }
}

} // verus!
