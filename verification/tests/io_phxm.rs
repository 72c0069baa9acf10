use sspm_codec::error::{DecodeError, EncodeError};
use sspm_codec::io::{BinaryReader, BinaryWriter, SeekFrom};
use sspm_codec::map::{MapFormat, MapObject, Note};
use sspm_codec::phxm::PHXMParser;
use sspm_codec::value::{ObjectDefinition, ObjectType, Vec2};
use std::io::Write;

#[test]
fn writer_reader_round_trip() {
    let mut w = BinaryWriter::new();
    w.write_bool(true);
    w.write_u8(0xAB);
    w.write_u16(0x1234);
    w.write_u32(0xDEADBEEF);
    w.write_u64(0x0123456789ABCDEF);
    w.write_string("héllo");
    w.write_long_string("world");
    let bytes = w.into_inner();
    let mut r = BinaryReader::new(bytes);
    assert_eq!(r.read_bool(), Ok(true));
    assert_eq!(r.read_u8(), Ok(0xAB));
    assert_eq!(r.read_u16(), Ok(0x1234));
    assert_eq!(r.read_u32(), Ok(0xDEADBEEF));
    assert_eq!(r.read_u64(), Ok(0x0123456789ABCDEF));
    assert_eq!(r.read_string(), Ok("héllo".to_string()));
    assert_eq!(r.read_long_string(), Ok("world".to_string()));
    assert_eq!(r.read_u8(), Err(DecodeError::TruncatedInput));
}

#[test]
fn writer_seek_overwrites_in_place() {
    let mut w = BinaryWriter::new();
    w.write_u32(0);
    w.write_u32(7);
    assert!(w.seek(SeekFrom::Start(0)).is_ok());
    w.write_u32(99);
    assert!(w.seek(SeekFrom::End(0)).is_ok());
    w.write_u8(1);
    let bytes = w.into_inner();
    let mut r = BinaryReader::new(bytes);
    assert_eq!(r.read_u32(), Ok(99));
    assert_eq!(r.read_u32(), Ok(7));
    assert_eq!(r.read_u8(), Ok(1));
}

#[test]
fn reader_seek_and_position() {
    let mut r = BinaryReader::new(vec![1, 2, 3, 4, 5]);
    assert_eq!(r.seek(SeekFrom::Start(3)), Ok(3));
    assert_eq!(r.read_u8(), Ok(4));
    assert_eq!(r.seek(SeekFrom::Current(-2)), Ok(2));
    assert_eq!(r.read_u8(), Ok(3));
    assert_eq!(r.seek(SeekFrom::End(-1)), Ok(4));
    assert_eq!(r.stream_position(), 4);
    assert_eq!(r.read_u8(), Ok(5));
    assert!(r.seek(SeekFrom::Current(-100)).is_err());
}

#[test]
fn invalid_utf8_string_rejected() {
    // Length 2, then an invalid UTF-8 pair.
    let mut r = BinaryReader::new(vec![0x02, 0x00, 0xFF, 0xFE]);
    assert_eq!(r.read_string(), Err(DecodeError::InvalidEncoding));
}

#[test]
fn truncated_string_rejected() {
    let mut r = BinaryReader::new(vec![0x05, 0x00, b'a']);
    assert_eq!(r.read_string(), Err(DecodeError::TruncatedInput));
}

#[test]
fn read_exact_and_sha1() {
    let mut r = BinaryReader::new((0u8..32).collect());
    let h = r.read_sha1().expect("hash");
    assert_eq!(h.len(), 20);
    assert_eq!(h[19], 19);
    let rest = r.read_exact(12).expect("rest");
    assert_eq!(rest[0], 20);
    assert_eq!(r.read_exact(1), Err(DecodeError::TruncatedInput));
}

#[test]
fn tag_table_round_trip() {
    for tag in 1u8..=0x0C {
        assert!(ObjectType::from_sspm(tag).is_ok());
    }
    assert!(ObjectType::from_sspm(0x00).is_err());
    assert!(ObjectType::from_sspm(0x0D).is_err());
}

#[test]
fn note_projection_shape_checked() {
    let good = ObjectDefinition {
        name: "ssp_note".to_string(),
        millisecond: 42,
        definitions: vec![ObjectType::Vec2(Some(Vec2 { x: 0, y: 0 }))],
    };
    let n = Note::from_definition(good).expect("note");
    assert_eq!(n.get_millisecond(), 42);
    let empty = ObjectDefinition {
        name: "ssp_note".to_string(),
        millisecond: 1,
        definitions: Vec::new(),
    };
    assert_eq!(
        Note::from_definition(empty),
        Err(DecodeError::InvalidEncoding)
    );
    let wrong = ObjectDefinition {
        name: "ssp_note".to_string(),
        millisecond: 1,
        definitions: vec![ObjectType::U8(Some(3))],
    };
    assert_eq!(
        Note::from_definition(wrong),
        Err(DecodeError::InvalidEncoding)
    );
}

fn build_phxm(metadata: &str, objects: &[u8], extra: &[(&str, &[u8])]) -> Vec<u8> {
    let cursor = std::io::Cursor::new(Vec::new());
    let mut zip = zip::ZipWriter::new(cursor);
    let opts = zip::write::SimpleFileOptions::default()
        .compression_method(zip::CompressionMethod::Stored);
    zip.start_file("metadata.json", opts).unwrap();
    zip.write_all(metadata.as_bytes()).unwrap();
    zip.start_file("objects.phxmo", opts).unwrap();
    zip.write_all(objects).unwrap();
    for (name, bytes) in extra {
        zip.start_file(*name, opts).unwrap();
        zip.write_all(bytes).unwrap();
    }
    zip.finish().unwrap().into_inner()
}

const META: &str = r#"{
  "ID": "phx-1",
  "HasAudio": true,
  "HasCover": false,
  "HasVideo": false,
  "AudioExtension": "mp3",
  "Artist": "someone",
  "Title": "Tune",
  "Mappers": ["alice", "bob"],
  "Difficulty": 4,
  "DifficultyName": "Expert",
  "NotesCount": 2
}"#;

fn sample_objects() -> Vec<u8> {
    let mut o = Vec::new();
    o.extend_from_slice(&0u32.to_le_bytes()); // unused type count
    o.extend_from_slice(&2u32.to_le_bytes()); // note count
    // Compact record: bytes read as their value minus one.
    o.extend_from_slice(&100u32.to_le_bytes());
    o.push(0);
    o.push(4); // 3.0
    o.push(6); // 5.0
    // Exact record.
    o.extend_from_slice(&250u32.to_le_bytes());
    o.push(1);
    o.extend_from_slice(&1.5f32.to_bits().to_le_bytes());
    o.extend_from_slice(&2.5f32.to_bits().to_le_bytes());
    o
}

#[test]
fn phxm_archive_decodes() {
    let archive = build_phxm(META, &sample_objects(), &[("audio.mp3", b"AUDI")]);
    let map = PHXMParser::deserialize(archive).expect("decode");
    assert_eq!(map.id, "phx-1");
    assert_eq!(map.title, "Tune");
    assert_eq!(map.artists, vec!["someone".to_string()]);
    assert_eq!(map.mappers, vec!["alice".to_string(), "bob".to_string()]);
    assert_eq!(map.difficulty, 4);
    assert_eq!(map.difficulty_name, "Expert");
    assert_eq!(map.audio, Some(b"AUDI".to_vec()));
    assert!(map.cover.is_empty());
    assert!(map.objects.is_empty());
    assert!(matches!(map.format, MapFormat::PHXM));
    assert_eq!(map.notes.len(), 2);
    assert_eq!(map.notes[0].millisecond, 100);
    assert_eq!(f32::from_bits(map.notes[0].position.x), 3.0);
    assert_eq!(f32::from_bits(map.notes[0].position.y), 5.0);
    assert_eq!(map.notes[1].millisecond, 250);
    assert_eq!(f32::from_bits(map.notes[1].position.x), 1.5);
    assert_eq!(f32::from_bits(map.notes[1].position.y), 2.5);
    // Duration is the last note's timestamp.
    assert_eq!(map.length, 250);
}

#[test]
fn phxm_missing_metadata_field_rejected() {
    let archive = build_phxm(r#"{"ID": "a"}"#, &sample_objects(), &[]);
    assert_eq!(
        PHXMParser::deserialize(archive),
        Err(DecodeError::InvalidEncoding)
    );
}

#[test]
fn phxm_missing_declared_audio_rejected() {
    // HasAudio is set but the audio entry is absent.
    let archive = build_phxm(META, &sample_objects(), &[]);
    assert_eq!(
        PHXMParser::deserialize(archive),
        Err(DecodeError::InvalidEncoding)
    );
}

#[test]
fn phxm_truncated_note_stream_rejected() {
    let mut objects = sample_objects();
    objects.truncate(objects.len() - 3);
    let archive = build_phxm(META, &objects, &[("audio.mp3", b"AUDI")]);
    assert_eq!(
        PHXMParser::deserialize(archive),
        Err(DecodeError::TruncatedInput)
    );
}

#[test]
fn phxm_not_an_archive_rejected() {
    assert_eq!(
        PHXMParser::deserialize(vec![1, 2, 3, 4]),
        Err(DecodeError::InvalidEncoding)
    );
}

#[test]
fn phxm_empty_note_stream_gives_zero_length() {
    let mut o = Vec::new();
    o.extend_from_slice(&0u32.to_le_bytes());
    o.extend_from_slice(&0u32.to_le_bytes());
    let meta = META.replace("\"NotesCount\": 2", "\"NotesCount\": 0");
    let archive = build_phxm(&meta, &o, &[("audio.mp3", b"AUDI")]);
    let map = PHXMParser::deserialize(archive).expect("decode");
    assert!(map.notes.is_empty());
    assert_eq!(map.length, 0);
}

#[test]
fn phxm_empty_audio_entry_decodes_to_none() {
    // HasAudio is set but the audio entry is empty: no audio.
    let archive = build_phxm(META, &sample_objects(), &[("audio.mp3", b"")]);
    let map = PHXMParser::deserialize(archive).expect("decode");
    assert_eq!(map.audio, None);
}

#[test]
fn phxm_encoding_unsupported() {
    let archive = build_phxm(META, &sample_objects(), &[("audio.mp3", b"AUDI")]);
    let map = PHXMParser::deserialize(archive).expect("decode");
    assert_eq!(PHXMParser::serialize(&map), Err(EncodeError::Unsupported));
}
