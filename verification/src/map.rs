use crate::error::DecodeError;
use crate::value::{ObjectDefinition, ObjectType, Vec2};
use vstd::prelude::*;

verus! {

/// The container kind a map was decoded from.
#[derive(Clone, Copy, Debug, PartialEq, Eq, Structural)]
pub enum MapFormat {
    SSPM,
    PHXM,
}

/// A timestamped playable position. The position axes are
/// single-precision bit patterns (see `fbits`).
#[derive(Clone, Copy, Debug, PartialEq, Eq, Structural)]
pub struct Note {
    pub millisecond: u32,
    pub position: Vec2,
}

/// Everything a map object offers: a timestamp.
pub trait MapObject {
    fn get_millisecond(&self) -> u32;
}

impl MapObject for Note {
    fn get_millisecond(&self) -> (r: u32) {
        self.millisecond
    }
}

impl Note {
    /// Project a decoded generic record into a note. The record must
    /// carry exactly one field, a populated 2D vector; any other shape
    /// is an `InvalidEncoding` error.
    pub fn from_definition(obj: ObjectDefinition) -> (r: Result<Note, DecodeError>)
        ensures
            r == note_of_record(obj@.millisecond, obj.definitions@.map_values(|v: ObjectType| v@)),
    {
        if obj.definitions.len() != 1 {
            return Err(DecodeError::InvalidEncoding);
        }
        match obj.definitions[0] {
            ObjectType::Vec2(Some(v)) => Ok(Note { millisecond: obj.millisecond, position: v }),
            _ => Err(DecodeError::InvalidEncoding),
        }
    }
}

/// The note a record with the given timestamp and field views projects
/// to, or the error when its shape is not a single populated 2D vector.
pub open spec fn note_of_record(ms: u32, fields: Seq<crate::value::ValueView>) -> Result<
    Note,
    DecodeError,
> {
    if fields.len() != 1 {
        Err(DecodeError::InvalidEncoding)
    } else {
        match fields[0] {
            crate::value::ValueView::Vec2(Some(v)) => Ok(Note { millisecond: ms, position: v }),
            _ => Err(DecodeError::InvalidEncoding),
        }
    }
}

/// The mathematical reading of a fully materialized map.
pub ghost struct MapView {
    pub id: Seq<char>,
    pub length: u32,
    pub title: Seq<char>,
    pub song: Seq<char>,
    pub artists: Seq<Seq<char>>,
    pub difficulty: u8,
    pub difficulty_name: Seq<char>,
    pub mappers: Seq<Seq<char>>,
    pub audio: Option<Seq<u8>>,
    pub cover: Seq<u8>,
    pub notes: Seq<Note>,
    pub objects: Seq<crate::value::RecordView>,
    pub format: MapFormat,
}

/// A fully materialized map: metadata strings, media bytes, the ordered
/// notes, and the unrecognized records kept opaquely.
#[derive(Debug, PartialEq)]
pub struct GameMap {
    /// Stable identifier of the map.
    pub id: String,
    /// Total duration in milliseconds.
    pub length: u32,
    /// Map display name.
    pub title: String,
    /// Song display name.
    pub song: String,
    /// Artist names, in insertion order.
    pub artists: Vec<String>,
    /// Difficulty tier.
    pub difficulty: u8,
    /// Difficulty display name.
    pub difficulty_name: String,
    /// Mapper names, in insertion order.
    pub mappers: Vec<String>,
    /// Raw audio bytes, when the container carries audio.
    pub audio: Option<Vec<u8>>,
    /// Raw cover-image bytes; empty when the container carries none.
    pub cover: Vec<u8>,
    /// The playable notes, in stream order.
    pub notes: Vec<Note>,
    /// Records whose schema name is not the reserved note name, intact
    /// and in stream order.
    pub objects: Vec<ObjectDefinition>,
    /// Which container the map came from.
    pub format: MapFormat,
}

impl View for GameMap {
    type V = MapView;

    open spec fn view(&self) -> MapView {
        MapView {
            id: self.id@,
            length: self.length,
            title: self.title@,
            song: self.song@,
            artists: Seq::new(self.artists@.len(), |i: int| self.artists@[i]@),
            difficulty: self.difficulty,
            difficulty_name: self.difficulty_name@,
            mappers: Seq::new(self.mappers@.len(), |i: int| self.mappers@[i]@),
            audio: match &self.audio {
                Some(a) => Some(a@),
                None => None,
            },
            cover: self.cover@,
            notes: self.notes@,
            objects: Seq::new(self.objects@.len(), |i: int| self.objects@[i]@),
            format: self.format,
        }
    }
}

impl GameMap {
    pub fn get_id(&self) -> (r: String)
        ensures
            r@ == self.id@,
    {
        self.id.as_str().to_owned()
    }

    pub fn get_title(&self) -> (r: String)
        ensures
            r@ == self.title@,
    {
        self.title.as_str().to_owned()
    }

    pub fn get_length(&self) -> (r: u32)
        ensures
            r == self.length,
    {
        self.length
    }

    pub fn get_mappers(&self) -> (r: Vec<String>)
        ensures
            r@.len() == self.mappers@.len(),
            forall|i: int| 0 <= i < r@.len() ==> r@[i]@ == #[trigger] self.mappers@[i]@,
    {
        clone_strings(&self.mappers)
    }

    pub fn get_artists(&self) -> (r: Vec<String>)
        ensures
            r@.len() == self.artists@.len(),
            forall|i: int| 0 <= i < r@.len() ==> r@[i]@ == #[trigger] self.artists@[i]@,
    {
        clone_strings(&self.artists)
    }
}

/// Copy a list of strings.
fn clone_strings(v: &Vec<String>) -> (r: Vec<String>)
    ensures
        r@.len() == v@.len(),
        forall|i: int| 0 <= i < r@.len() ==> r@[i]@ == #[trigger] v@[i]@,
{
    let mut out: Vec<String> = Vec::new();
    let mut i: usize = 0;
    while i < v.len()
        invariant
            i <= v@.len(),
            out@.len() == i,
            forall|j: int| 0 <= j < i ==> out@[j]@ == #[trigger] v@[j]@,
        decreases v@.len() - i,
    {
        out.push(v[i].as_str().to_owned());
        i = i + 1;
    }
    out
}

} // verus!
