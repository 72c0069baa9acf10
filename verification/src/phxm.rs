use crate::error::{DecodeError, EncodeError};
use crate::fbits::{bits_of_small_int, f32_bits_of_int};
use crate::io::BinaryReader;
use crate::le::u32_le;
use crate::map::{GameMap, MapFormat, MapView, Note};
use crate::value::{RecordView, Vec2};
use vstd::prelude::*;

verus! {

/// Decoder for the PHXM archive container: a zip archive holding a JSON
/// metadata entry, a binary note stream, and optional media entries.
pub struct PHXMParser;

/// What the named entry of an in-memory zip archive holds.
pub uninterp spec fn zip_entry(archive: Seq<u8>, name: Seq<char>) -> Option<Seq<u8>>;

/// Relies on `zip::ZipArchive::{new, by_name}` and `Read::read_to_end`:
/// extracting one named entry from an in-memory archive is a function of
/// the archive bytes and the entry name alone.
#[verifier::external_body]
fn read_zip_entry(archive: &Vec<u8>, name: &str) -> (r: Option<Vec<u8>>)
    ensures
        match r {
            Some(v) => zip_entry(archive@, name@) == Some(v@),
            None => zip_entry(archive@, name@) is None,
        },
{
    let cursor = std::io::Cursor::new(archive.as_slice());
    let mut folder = match zip::ZipArchive::new(cursor) {
        Ok(f) => f,
        Err(_) => return None,
    };
    let mut file = match folder.by_name(name) {
        Ok(f) => f,
        Err(_) => return None,
    };
    let mut buf = Vec::new();
    match std::io::Read::read_to_end(&mut file, &mut buf) {
        Ok(_) => Some(buf),
        Err(_) => None,
    }
}

/// The string at a top-level key of a JSON document.
pub uninterp spec fn json_str_field(doc: Seq<u8>, key: Seq<char>) -> Option<Seq<char>>;

/// Relies on `serde_json::from_slice` and `Value::{get, as_str}`: the
/// string at a top-level key, a function of the bytes and the key alone.
#[verifier::external_body]
fn get_json_str(doc: &Vec<u8>, key: &str) -> (r: Option<String>)
    ensures
        match r {
            Some(s) => json_str_field(doc@, key@) == Some(s@),
            None => json_str_field(doc@, key@) is None,
        },
{
    let v: serde_json::Value = serde_json::from_slice(doc.as_slice()).ok()?;
    Some(v.get(key)?.as_str()?.to_string())
}

/// The unsigned integer at a top-level key of a JSON document.
pub uninterp spec fn json_u64_field(doc: Seq<u8>, key: Seq<char>) -> Option<u64>;

/// Relies on `serde_json::from_slice` and `Value::{get, as_u64}`: the
/// unsigned integer at a top-level key, a function of the bytes and the
/// key alone.
#[verifier::external_body]
fn get_json_u64(doc: &Vec<u8>, key: &str) -> (r: Option<u64>)
    ensures
        r == json_u64_field(doc@, key@),
{
    let v: serde_json::Value = serde_json::from_slice(doc.as_slice()).ok()?;
    v.get(key)?.as_u64()
}

/// The boolean at a top-level key of a JSON document.
pub uninterp spec fn json_bool_field(doc: Seq<u8>, key: Seq<char>) -> Option<bool>;

/// Relies on `serde_json::from_slice` and `Value::{get, as_bool}`: the
/// boolean at a top-level key, a function of the bytes and the key
/// alone.
#[verifier::external_body]
fn get_json_bool(doc: &Vec<u8>, key: &str) -> (r: Option<bool>)
    ensures
        r == json_bool_field(doc@, key@),
{
    let v: serde_json::Value = serde_json::from_slice(doc.as_slice()).ok()?;
    v.get(key)?.as_bool()
}

/// The list of strings at a top-level key of a JSON document, or `None`
/// when the key is absent or any element is not a string.
pub uninterp spec fn json_str_list_field(doc: Seq<u8>, key: Seq<char>) -> Option<Seq<Seq<char>>>;

/// Relies on `serde_json::from_slice` and `Value::{get, as_array,
/// as_str}`: the string list at a top-level key, a function of the bytes
/// and the key alone.
#[verifier::external_body]
fn get_json_str_list(doc: &Vec<u8>, key: &str) -> (r: Option<Vec<String>>)
    ensures
        match r {
            Some(v) => json_str_list_field(doc@, key@) == Some(v.deep_view()),
            None => json_str_list_field(doc@, key@) is None,
        },
{
    let v: serde_json::Value = serde_json::from_slice(doc.as_slice()).ok()?;
    let arr = v.get(key)?.as_array()?;
    let mut out = Vec::new();
    for item in arr {
        out.push(item.as_str()?.to_string());
    }
    Some(out)
}

/// Relies on `String::push_str`: the concatenation of two strings.
#[verifier::external_body]
fn concat_strs(a: &str, b: &str) -> (r: String)
    ensures
        r@ == a@ + b@,
{
    let mut s = String::from(a);
    s.push_str(b);
    s
}

/// What the binary note stream declares: a leading unused 32-bit value,
/// a 32-bit note count, then that many fixed-shape records.
pub open spec fn spec_parse_phxmo(d: Seq<u8>) -> Result<Seq<Note>, DecodeError> {
    if d.len() < 8 {
        Err(DecodeError::TruncatedInput)
    } else {
        match spec_phxmo_notes(d, 8, u32_le(d[4], d[5], d[6], d[7]) as int) {
            Ok((ns, _)) => Ok(ns),
            Err(e) => Err(e),
        }
    }
}

/// `k` note records at `pos`: a timestamp, a quantum flag, then either
/// two full single-precision patterns or two compact bytes, each read
/// as the byte's value minus one.
pub open spec fn spec_phxmo_notes(d: Seq<u8>, pos: int, k: int) -> Result<
    (Seq<Note>, int),
    DecodeError,
>
    decreases k,
{
    if k <= 0 {
        Ok((Seq::empty(), pos))
    } else if pos + 5 > d.len() {
        Err(DecodeError::TruncatedInput)
    } else {
        let ms = u32_le(d[pos], d[pos + 1], d[pos + 2], d[pos + 3]);
        if d[pos + 4] == 1 {
            if pos + 13 > d.len() {
                Err(DecodeError::TruncatedInput)
            } else {
                let x = u32_le(d[pos + 5], d[pos + 6], d[pos + 7], d[pos + 8]);
                let y = u32_le(d[pos + 9], d[pos + 10], d[pos + 11], d[pos + 12]);
                match spec_phxmo_notes(d, pos + 13, k - 1) {
                    Err(e) => Err(e),
                    Ok((ns, np)) => Ok(
                        (
                            seq![Note { millisecond: ms, position: Vec2 { x, y } }] + ns,
                            np,
                        ),
                    ),
                }
            }
        } else {
            if pos + 7 > d.len() {
                Err(DecodeError::TruncatedInput)
            } else {
                let x = bits_of_small_int(d[pos + 5] - 1);
                let y = bits_of_small_int(d[pos + 6] - 1);
                match spec_phxmo_notes(d, pos + 7, k - 1) {
                    Err(e) => Err(e),
                    Ok((ns, np)) => Ok(
                        (
                            seq![Note { millisecond: ms, position: Vec2 { x, y } }] + ns,
                            np,
                        ),
                    ),
                }
            }
        }
    }
}

/// What decoding a whole PHXM archive yields, over the named results of
/// the archive and JSON lookups: the fully materialized map on success,
/// and the error that stops the decode otherwise. The decoder returns
/// `Ok` exactly when this does.
pub open spec fn spec_phxm_deserialize(archive: Seq<u8>) -> Result<MapView, DecodeError> {
    match zip_entry(archive, "metadata.json"@) {
        None => Err(DecodeError::InvalidEncoding),
        Some(meta) => match json_str_field(meta, "ID"@) {
            None => Err(DecodeError::InvalidEncoding),
            Some(id) => match json_bool_field(meta, "HasAudio"@) {
                None => Err(DecodeError::InvalidEncoding),
                Some(has_audio) => match json_bool_field(meta, "HasCover"@) {
                    None => Err(DecodeError::InvalidEncoding),
                    Some(has_cover) => match json_bool_field(meta, "HasVideo"@) {
                        None => Err(DecodeError::InvalidEncoding),
                        Some(has_video) => match json_str_field(meta, "AudioExtension"@) {
                            None => Err(DecodeError::InvalidEncoding),
                            Some(ext) => match json_str_field(meta, "Artist"@) {
                                None => Err(DecodeError::InvalidEncoding),
                                Some(artist) => match json_str_field(meta, "Title"@) {
                                    None => Err(DecodeError::InvalidEncoding),
                                    Some(title) => match json_str_list_field(meta, "Mappers"@) {
                                        None => Err(DecodeError::InvalidEncoding),
                                        Some(mappers) => spec_phxm_rest(
                                            archive,
                                            meta,
                                            id,
                                            has_audio,
                                            has_cover,
                                            has_video,
                                            ext,
                                            artist,
                                            title,
                                            mappers,
                                        ),
                                    },
                                },
                            },
                        },
                    },
                },
            },
        },
    }
}

/// The tail of the archive decode: difficulty fields, the note stream,
/// and the media entries the booleans demand.
pub open spec fn spec_phxm_rest(
    archive: Seq<u8>,
    meta: Seq<u8>,
    id: Seq<char>,
    has_audio: bool,
    has_cover: bool,
    has_video: bool,
    ext: Seq<char>,
    artist: Seq<char>,
    title: Seq<char>,
    mappers: Seq<Seq<char>>,
) -> Result<MapView, DecodeError> {
    match json_u64_field(meta, "Difficulty"@) {
        None => Err(DecodeError::InvalidEncoding),
        Some(diff) => if diff > 255 {
            Err(DecodeError::InvalidEncoding)
        } else {
            match json_str_field(meta, "DifficultyName"@) {
                None => Err(DecodeError::InvalidEncoding),
                Some(dn) => match json_u64_field(meta, "NotesCount"@) {
                    None => Err(DecodeError::InvalidEncoding),
                    Some(_) => match zip_entry(archive, "objects.phxmo"@) {
                        None => Err(DecodeError::InvalidEncoding),
                        Some(ob) => match spec_parse_phxmo(ob) {
                            Err(e) => Err(e),
                            Ok(notes) => {
                                let audio_entry = zip_entry(archive, "audio."@ + ext);
                                let cover_entry = zip_entry(archive, "cover.png"@);
                                if has_audio && audio_entry is None {
                                    Err(DecodeError::InvalidEncoding)
                                } else if has_cover && cover_entry is None {
                                    Err(DecodeError::InvalidEncoding)
                                } else if has_video && zip_entry(archive, "video.mp4"@) is None {
                                    Err(DecodeError::InvalidEncoding)
                                } else {
                                    Ok(
                                        MapView {
                                            id,
                                            length: if notes.len() == 0 {
                                                0u32
                                            } else {
                                                notes[notes.len() - 1].millisecond
                                            },
                                            title,
                                            song: title,
                                            artists: seq![artist],
                                            difficulty: diff as u8,
                                            difficulty_name: dn,
                                            mappers,
                                            audio: if has_audio {
                                                match audio_entry {
                                                    Some(ab) => if ab.len() > 0 {
                                                        Some(ab)
                                                    } else {
                                                        None
                                                    },
                                                    None => None,
                                                }
                                            } else {
                                                None
                                            },
                                            cover: if has_cover {
                                                match cover_entry {
                                                    Some(cb) => cb,
                                                    None => Seq::empty(),
                                                }
                                            } else {
                                                Seq::empty()
                                            },
                                            notes,
                                            objects: Seq::empty(),
                                            format: MapFormat::PHXM,
                                        },
                                    )
                                }
                            },
                        },
                    },
                },
            }
        },
    }
}

impl PHXMParser {
    /// PHXM encoding is not part of the format's surface: every call
    /// reports it unsupported.
    pub fn serialize(_map: &GameMap) -> (r: Result<Vec<u8>, EncodeError>)
        ensures
            r == Err::<Vec<u8>, EncodeError>(EncodeError::Unsupported),
    {
        Err(EncodeError::Unsupported)
    }

    /// Parse the binary note stream entry.
    #[verifier::loop_isolation(false)]
    fn parse_phxmo(bytes: Vec<u8>) -> (r: Result<Vec<Note>, DecodeError>)
        ensures
            match spec_parse_phxmo(bytes@) {
                Ok(ns) => r matches Ok(v) && v@ == ns,
                Err(e) => r matches Err(e2) && e2 == e,
            },
    {
        let ghost d = bytes@;
        let mut parser = BinaryReader::new(bytes);
        let _type_count = match parser.read_u32() {
            Ok(v) => v,
            Err(e) => { return Err(e) },
        };
        let note_count = match parser.read_u32() {
            Ok(v) => v,
            Err(e) => { return Err(e) },
        };
        let mut notes: Vec<Note> = Vec::new();
        let mut i: u32 = 0;
        proof {
            match spec_phxmo_notes(d, parser.pos as int, note_count as int) {
                Ok((ns, np)) => {
                    assert(notes@ + ns =~= ns);
                },
                Err(_) => {},
            }
        }
        while i < note_count
            invariant
                i <= note_count,
                parser.data@ == d,
                spec_phxmo_notes(d, 8, note_count as int) == (match spec_phxmo_notes(
                    d,
                    parser.pos as int,
                    note_count - i,
                ) {
                    Ok((ns, np)) => Ok::<_, DecodeError>((notes@ + ns, np)),
                    Err(e) => Err(e),
                }),
            decreases note_count - i,
        {
            let ghost pre_notes = notes@;
            let millisecond = match parser.read_u32() {
                Ok(v) => v,
                Err(e) => { return Err(e) },
            };
            let quantum = match parser.read_bool() {
                Ok(v) => v,
                Err(e) => { return Err(e) },
            };
            let note: Note;
            if quantum {
                let x = match parser.read_u32() {
                    Ok(v) => v,
                    Err(e) => { return Err(e) },
                };
                let y = match parser.read_u32() {
                    Ok(v) => v,
                    Err(e) => { return Err(e) },
                };
                note = Note { millisecond, position: Vec2 { x, y } };
            } else {
                let bx = match parser.read_u8() {
                    Ok(v) => v,
                    Err(e) => { return Err(e) },
                };
                let by = match parser.read_u8() {
                    Ok(v) => v,
                    Err(e) => { return Err(e) },
                };
                let x = f32_bits_of_int(bx as i32 - 1);
                let y = f32_bits_of_int(by as i32 - 1);
                note = Note { millisecond, position: Vec2 { x, y } };
            }
            proof {
                match spec_phxmo_notes(d, parser.pos as int, note_count - i - 1) {
                    Ok((ns, np)) => {
                        assert(pre_notes + (seq![note] + ns) =~= pre_notes.push(note) + ns);
                    },
                    Err(_) => {},
                }
            }
            notes.push(note);
            i = i + 1;
        }
        proof {
            assert(notes@ + Seq::<Note>::empty() =~= notes@);
        }
        Ok(notes)
    }

    /// Decode a PHXM archive: the JSON metadata entry, the binary note
    /// stream, and the media entries the metadata declares. The result
    /// never carries generic records, and its duration is the last
    /// note's timestamp.
    pub fn deserialize(archive: Vec<u8>) -> (r: Result<GameMap, DecodeError>)
        ensures
            match spec_phxm_deserialize(archive@) {
                Ok(v) => r matches Ok(m) && m@ == v,
                Err(e) => r matches Err(e2) && e2 == e,
            },
    {
        let meta = match read_zip_entry(&archive, "metadata.json") {
            Some(v) => v,
            None => { return Err(DecodeError::InvalidEncoding) },
        };
        let id = match get_json_str(&meta, "ID") {
            Some(v) => v,
            None => { return Err(DecodeError::InvalidEncoding) },
        };
        let has_audio = match get_json_bool(&meta, "HasAudio") {
            Some(v) => v,
            None => { return Err(DecodeError::InvalidEncoding) },
        };
        let has_cover = match get_json_bool(&meta, "HasCover") {
            Some(v) => v,
            None => { return Err(DecodeError::InvalidEncoding) },
        };
        let has_video = match get_json_bool(&meta, "HasVideo") {
            Some(v) => v,
            None => { return Err(DecodeError::InvalidEncoding) },
        };
        let audio_extension = match get_json_str(&meta, "AudioExtension") {
            Some(v) => v,
            None => { return Err(DecodeError::InvalidEncoding) },
        };
        let artist = match get_json_str(&meta, "Artist") {
            Some(v) => v,
            None => { return Err(DecodeError::InvalidEncoding) },
        };
        let title = match get_json_str(&meta, "Title") {
            Some(v) => v,
            None => { return Err(DecodeError::InvalidEncoding) },
        };
        let mappers = match get_json_str_list(&meta, "Mappers") {
            Some(v) => v,
            None => { return Err(DecodeError::InvalidEncoding) },
        };
        let difficulty_u64 = match get_json_u64(&meta, "Difficulty") {
            Some(v) => v,
            None => { return Err(DecodeError::InvalidEncoding) },
        };
        if difficulty_u64 > 255 {
            return Err(DecodeError::InvalidEncoding);
        }
        let difficulty = difficulty_u64 as u8;
        let difficulty_name = match get_json_str(&meta, "DifficultyName") {
            Some(v) => v,
            None => { return Err(DecodeError::InvalidEncoding) },
        };
        let _notes_count = match get_json_u64(&meta, "NotesCount") {
            Some(v) => v,
            None => { return Err(DecodeError::InvalidEncoding) },
        };
        let objects_entry = match read_zip_entry(&archive, "objects.phxmo") {
            Some(v) => v,
            None => { return Err(DecodeError::InvalidEncoding) },
        };
        let notes = match Self::parse_phxmo(objects_entry) {
            Ok(v) => v,
            Err(e) => { return Err(e) },
        };
        let mut audio: Option<Vec<u8>> = None;
        if has_audio {
            let audio_name = concat_strs("audio.", audio_extension.as_str());
            let audio_buf = match read_zip_entry(&archive, audio_name.as_str()) {
                Some(v) => v,
                None => { return Err(DecodeError::InvalidEncoding) },
            };
            if audio_buf.len() > 0 {
                audio = Some(audio_buf);
            }
        }
        let mut cover: Vec<u8> = Vec::new();
        if has_cover {
            cover = match read_zip_entry(&archive, "cover.png") {
                Some(v) => v,
                None => { return Err(DecodeError::InvalidEncoding) },
            };
        }
        if has_video {
            match read_zip_entry(&archive, "video.mp4") {
                Some(_) => (),
                None => { return Err(DecodeError::InvalidEncoding) },
            };
        }
        let length: u32 = if notes.len() == 0 {
            0
        } else {
            notes[notes.len() - 1].millisecond
        };
        let song = title.as_str().to_owned();
        let ghost artist_chars = artist@;
        let mut artists: Vec<String> = Vec::new();
        artists.push(artist);
        let m = GameMap {
            id,
            length,
            title,
            song,
            artists,
            difficulty,
            difficulty_name,
            mappers,
            audio,
            cover,
            notes,
            objects: Vec::new(),
            format: MapFormat::PHXM,
        };
        proof {
            let v = spec_phxm_deserialize(archive@).unwrap();
            assert(m@.mappers =~= m.mappers.deep_view());
            assert(m@.artists =~= seq![artist_chars]);
            assert(m@.objects =~= Seq::<RecordView>::empty());
            assert(m@ == v);
        }
        Ok(m)
    }
}

} // verus!
