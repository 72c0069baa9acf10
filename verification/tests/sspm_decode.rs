use sspm_codec::error::DecodeError;
use sspm_codec::map::MapFormat;
use sspm_codec::sspm::{SSPMParser, SSPMSerializer};
use sspm_codec::value::ObjectType;

fn push_u16(out: &mut Vec<u8>, v: u16) {
    out.extend_from_slice(&v.to_le_bytes());
}

fn push_u32(out: &mut Vec<u8>, v: u32) {
    out.extend_from_slice(&v.to_le_bytes());
}

fn push_u64(out: &mut Vec<u8>, v: u64) {
    out.extend_from_slice(&v.to_le_bytes());
}

fn push_str(out: &mut Vec<u8>, s: &str) {
    push_u16(out, s.len() as u16);
    out.extend_from_slice(s.as_bytes());
}

/// A minimal well-formed file: one mapper, no custom data, no media,
/// one `ssp_note` schema entry, and the given record stream.
fn minimal_file(schema_extra: &[(&str, &[u8])], records: &[u8]) -> Vec<u8> {
    let mut f = Vec::new();
    f.extend_from_slice(b"SS+m");
    f.extend_from_slice(&[0x02, 0x00]);
    f.extend_from_slice(&[0u8; 4]);
    f.extend_from_slice(&[0u8; 20]);
    push_u32(&mut f, 1000); // duration
    push_u32(&mut f, 1); // note count
    push_u32(&mut f, 1); // total record count
    f.push(0); // difficulty
    push_u16(&mut f, 0); // star rating
    f.extend_from_slice(&[0, 0, 0]); // has-audio, has-cover, has-mod
    assert_eq!(f.len(), 48);
    // Offset table, filled below.
    let mut strings = Vec::new();
    push_str(&mut strings, "x"); // map id
    push_str(&mut strings, "t"); // map name
    push_str(&mut strings, "t"); // song name
    push_u16(&mut strings, 1);
    push_str(&mut strings, "alice");
    push_u16(&mut strings, 0); // custom data field count
    let mut schema = Vec::new();
    schema.push((1 + schema_extra.len()) as u8);
    push_str(&mut schema, "ssp_note");
    schema.push(1);
    schema.push(0x07);
    schema.push(0x00);
    for (name, tags) in schema_extra {
        push_str(&mut schema, name);
        schema.push(tags.len() as u8);
        schema.extend_from_slice(tags);
        schema.push(0x00);
    }
    let schema_off = 128 + strings.len() as u64;
    let rec_off = schema_off + schema.len() as u64;
    push_u64(&mut f, 0);
    push_u64(&mut f, 0);
    push_u64(&mut f, 0);
    push_u64(&mut f, 0);
    push_u64(&mut f, 0);
    push_u64(&mut f, 0);
    push_u64(&mut f, schema_off);
    push_u64(&mut f, schema.len() as u64);
    push_u64(&mut f, rec_off);
    push_u64(&mut f, records.len() as u64);
    f.extend_from_slice(&strings);
    f.extend_from_slice(&schema);
    f.extend_from_slice(records);
    f
}

#[test]
fn minimal_example_decodes() {
    // One compact record: ms=1000, schema 0, axis bytes 5 and 6, which
    // the compact form reads as 3 and 4.
    let mut rec = Vec::new();
    push_u32(&mut rec, 1000);
    rec.push(0); // schema id
    rec.push(0); // quantum flag: compact
    rec.push(5);
    rec.push(6);
    let file = minimal_file(&[], &rec);
    let map = SSPMSerializer::deserialize(file).expect("decode");
    assert_eq!(map.mappers, vec!["alice".to_string()]);
    assert_eq!(map.notes.len(), 1);
    assert_eq!(map.notes[0].millisecond, 1000);
    assert_eq!(f32::from_bits(map.notes[0].position.x), 3.0);
    assert_eq!(f32::from_bits(map.notes[0].position.y), 4.0);
    assert!(map.objects.is_empty());
    assert_eq!(map.length, 1000);
    assert!(matches!(map.format, MapFormat::SSPM));
    assert_eq!(map.id, "x");
    assert_eq!(map.title, "t");
}

#[test]
fn bad_magic_rejected() {
    let mut rec = Vec::new();
    push_u32(&mut rec, 1000);
    rec.push(0);
    rec.push(0);
    rec.push(5);
    rec.push(6);
    let mut file = minimal_file(&[], &rec);
    file[0] = b'X';
    assert_eq!(
        SSPMSerializer::deserialize(file),
        Err(DecodeError::FormatError)
    );
}

#[test]
fn bad_magic_rejected_before_later_fields() {
    // Only five bytes, but the magic is checked first.
    let file = vec![b'A', b'B', b'C', b'D', 0x02];
    assert_eq!(
        SSPMSerializer::deserialize(file),
        Err(DecodeError::FormatError)
    );
}

#[test]
fn wrong_version_rejected() {
    let mut rec = Vec::new();
    push_u32(&mut rec, 1000);
    rec.push(0);
    rec.push(0);
    rec.push(5);
    rec.push(6);
    let mut file = minimal_file(&[], &rec);
    file[4] = 0x03;
    assert_eq!(
        SSPMSerializer::deserialize(file),
        Err(DecodeError::FormatError)
    );
}

#[test]
fn empty_stream_truncated() {
    assert_eq!(
        SSPMSerializer::deserialize(Vec::new()),
        Err(DecodeError::TruncatedInput)
    );
    assert_eq!(
        SSPMSerializer::deserialize(b"SS+m".to_vec()),
        Err(DecodeError::TruncatedInput)
    );
}

#[test]
fn unknown_schema_id_rejected() {
    let mut rec = Vec::new();
    push_u32(&mut rec, 1000);
    rec.push(5); // only schema 0 is registered
    rec.push(0);
    rec.push(5);
    rec.push(6);
    let file = minimal_file(&[], &rec);
    assert_eq!(
        SSPMSerializer::deserialize(file),
        Err(DecodeError::InvalidEncoding)
    );
}

#[test]
fn unknown_record_preserved() {
    // Schema 1 is "marker" with one u8 slot; its record goes to the
    // opaque list, intact, and produces no note.
    let mut rec = Vec::new();
    push_u32(&mut rec, 77);
    rec.push(1);
    rec.push(42);
    let file = minimal_file(&[("marker", &[0x01])], &rec);
    let map = SSPMSerializer::deserialize(file).expect("decode");
    assert!(map.notes.is_empty());
    assert_eq!(map.objects.len(), 1);
    assert_eq!(map.objects[0].name, "marker");
    assert_eq!(map.objects[0].millisecond, 77);
    assert_eq!(map.objects[0].definitions.len(), 1);
    assert!(matches!(
        map.objects[0].definitions[0],
        ObjectType::U8(Some(42))
    ));
}

#[test]
fn missing_schema_terminator_is_invalid_encoding() {
    let mut rec = Vec::new();
    push_u32(&mut rec, 1000);
    rec.push(0);
    rec.push(0);
    rec.push(5);
    rec.push(6);
    let mut file = minimal_file(&[], &rec);
    // The terminator of the single schema entry sits right before the
    // record stream; corrupt it.
    let pos = file.len() - rec.len() - 1;
    file[pos] = 0x55;
    assert_eq!(
        SSPMSerializer::deserialize(file),
        Err(DecodeError::InvalidEncoding)
    );
}

#[test]
fn nested_sequence_slot_unsupported() {
    let mut rec = Vec::new();
    push_u32(&mut rec, 5);
    rec.push(1); // the "nest" schema
    let file = minimal_file(&[("nest", &[0x0C])], &rec);
    assert_eq!(
        SSPMSerializer::deserialize(file),
        Err(DecodeError::UnsupportedFeature)
    );
}

#[test]
fn unknown_type_tag_rejected() {
    let mut rec = Vec::new();
    push_u32(&mut rec, 5);
    rec.push(0);
    rec.push(0);
    rec.push(5);
    rec.push(6);
    let file = minimal_file(&[("odd", &[0xEE])], &rec);
    assert_eq!(
        SSPMSerializer::deserialize(file),
        Err(DecodeError::InvalidEncoding)
    );
}

#[test]
fn record_overrunning_declared_end_rejected() {
    // The record stream declares a length shorter than one record, so
    // the record's fields run past the declared end offset.
    let mut rec = Vec::new();
    push_u32(&mut rec, 1000);
    rec.push(0);
    rec.push(0);
    rec.push(5);
    rec.push(6);
    let mut file = minimal_file(&[], &rec);
    // Shrink the declared record-stream length (the last u64 of the
    // offset table at byte 120) to 3 bytes.
    file[120..128].copy_from_slice(&3u64.to_le_bytes());
    assert_eq!(
        SSPMSerializer::deserialize(file),
        Err(DecodeError::InvalidEncoding)
    );
}

#[test]
fn exact_form_note_decodes_bit_exact() {
    let x = 1.5f32.to_bits();
    let y = (-2.25f32).to_bits();
    let mut rec = Vec::new();
    push_u32(&mut rec, 500);
    rec.push(0);
    rec.push(1); // quantum flag: exact
    rec.extend_from_slice(&x.to_le_bytes());
    rec.extend_from_slice(&y.to_le_bytes());
    let file = minimal_file(&[], &rec);
    let map = SSPMSerializer::deserialize(file).expect("decode");
    assert_eq!(map.notes.len(), 1);
    assert_eq!(map.notes[0].position.x, x);
    assert_eq!(map.notes[0].position.y, y);
}

#[test]
fn parser_entry_point_matches_serializer() {
    let mut rec = Vec::new();
    push_u32(&mut rec, 1000);
    rec.push(0);
    rec.push(0);
    rec.push(5);
    rec.push(6);
    let file = minimal_file(&[], &rec);
    assert_eq!(
        SSPMParser::parse(file.clone()),
        SSPMSerializer::deserialize(file)
    );
}
