use sspm_codec::error::EncodeError;
use sspm_codec::fbits::{f32_bits_of_int, quantize};
use sspm_codec::map::{GameMap, MapFormat, Note};
use sspm_codec::sspm::SSPMSerializer;
use sspm_codec::value::Vec2;

fn note(ms: u32, x: f32, y: f32) -> Note {
    Note {
        millisecond: ms,
        position: Vec2 {
            x: x.to_bits(),
            y: y.to_bits(),
        },
    }
}

fn sample_map(notes: Vec<Note>) -> GameMap {
    GameMap {
        id: "map-1".to_string(),
        length: 9000,
        title: "A Song".to_string(),
        song: "A Song".to_string(),
        artists: Vec::new(),
        difficulty: 3,
        difficulty_name: "Hard".to_string(),
        mappers: vec!["alice".to_string(), "bob".to_string()],
        audio: Some(vec![1, 2, 3, 4]),
        cover: Vec::new(),
        notes,
        objects: Vec::new(),
        format: MapFormat::SSPM,
    }
}

#[test]
fn round_trip_notes_only_map() {
    let notes = vec![note(1000, 3.0, 4.0), note(2000, 1.5, -2.25)];
    let m = sample_map(notes.clone());
    let bytes = SSPMSerializer::serialize(&m).expect("encode");
    let back = SSPMSerializer::deserialize(bytes).expect("decode");
    assert_eq!(back.title, m.title);
    assert_eq!(back.mappers, m.mappers);
    assert_eq!(back.audio, m.audio);
    assert_eq!(back.difficulty_name, m.difficulty_name);
    assert_eq!(back.notes.len(), m.notes.len());
    for (orig, dec) in m.notes.iter().zip(back.notes.iter()) {
        assert_eq!(dec.millisecond, orig.millisecond);
        let (ox, oy) = (
            f32::from_bits(orig.position.x),
            f32::from_bits(orig.position.y),
        );
        let (dx, dy) = (
            f32::from_bits(dec.position.x),
            f32::from_bits(dec.position.y),
        );
        // Integral positions may shift by one unit through the compact
        // form's asymmetric offsets; everything else is bit-exact.
        assert!((dx - ox).abs() <= 1.0, "x {} vs {}", dx, ox);
        assert!((dy - oy).abs() <= 1.0, "y {} vs {}", dy, oy);
    }
    assert!(back.objects.is_empty());
}

#[test]
fn round_trip_exact_positions_bit_exact() {
    let notes = vec![note(10, 1.5, 2.75), note(20, -3.5, 100.125)];
    let m = sample_map(notes.clone());
    let bytes = SSPMSerializer::serialize(&m).expect("encode");
    let back = SSPMSerializer::deserialize(bytes).expect("decode");
    assert_eq!(back.notes.len(), 2);
    for (orig, dec) in m.notes.iter().zip(back.notes.iter()) {
        assert_eq!(dec.position, orig.position);
    }
}

#[test]
fn header_of_encoded_stream() {
    let m = sample_map(vec![note(1, 0.0, 0.0)]);
    let bytes = SSPMSerializer::serialize(&m).expect("encode");
    assert_eq!(&bytes[0..4], b"SS+m");
    assert_eq!(&bytes[4..6], &[0x02, 0x00]);
}

#[test]
fn compact_form_chosen_for_integral_positions() {
    // (3, 4) is integral: the record is 8 bytes (compact), with axis
    // bytes one above the coordinate.
    let m = sample_map(vec![note(1000, 3.0, 4.0)]);
    let bytes = SSPMSerializer::serialize(&m).expect("encode");
    let ro = u64::from_le_bytes(bytes[112..120].try_into().unwrap()) as usize;
    let rl = u64::from_le_bytes(bytes[120..128].try_into().unwrap()) as usize;
    assert_eq!(rl, 8);
    let rec = &bytes[ro..ro + rl];
    assert_eq!(&rec[0..4], &1000u32.to_le_bytes());
    assert_eq!(rec[4], 0); // schema id
    assert_eq!(rec[5], 0); // quantum flag: compact
    assert_eq!(rec[6], 4); // 3 + 1
    assert_eq!(rec[7], 5); // 4 + 1
}

#[test]
fn exact_form_chosen_for_fractional_positions() {
    let m = sample_map(vec![note(1000, 3.25, 4.0)]);
    let bytes = SSPMSerializer::serialize(&m).expect("encode");
    let ro = u64::from_le_bytes(bytes[112..120].try_into().unwrap()) as usize;
    let rl = u64::from_le_bytes(bytes[120..128].try_into().unwrap()) as usize;
    assert_eq!(rl, 14);
    let rec = &bytes[ro..ro + rl];
    assert_eq!(rec[5], 1); // quantum flag: exact
    assert_eq!(&rec[6..10], &3.25f32.to_bits().to_le_bytes());
    assert_eq!(&rec[10..14], &4.0f32.to_bits().to_le_bytes());
}

#[test]
fn quantize_boundary_cases() {
    // Within a hundredth of an integer: compact, nearest plus one.
    assert_eq!(quantize(3.0f32.to_bits()), Some(4));
    assert_eq!(quantize(2.999f32.to_bits()), Some(4));
    assert_eq!(quantize(3.004f32.to_bits()), Some(4));
    // Farther than a hundredth: exact form.
    assert_eq!(quantize(3.01f32.to_bits()), None);
    assert_eq!(quantize(3.5f32.to_bits()), None);
    // Range limits of the byte form.
    assert_eq!(quantize(254.0f32.to_bits()), Some(255));
    assert_eq!(quantize(255.0f32.to_bits()), None);
    assert_eq!(quantize(0.0f32.to_bits()), Some(1));
    assert_eq!(quantize(0.004f32.to_bits()), Some(1));
    assert_eq!(quantize((-0.004f32).to_bits()), Some(1));
    assert_eq!(quantize((-1.0f32).to_bits()), None);
    assert_eq!(quantize(f32::NAN.to_bits()), None);
    assert_eq!(quantize(f32::INFINITY.to_bits()), None);
}

#[test]
fn bits_of_small_int_matches_std() {
    for n in -254i32..=254 {
        assert_eq!(f32_bits_of_int(n), (n as f32).to_bits(), "n = {}", n);
    }
}

#[test]
fn oversized_title_rejected() {
    let mut m = sample_map(vec![note(1, 0.0, 0.0)]);
    m.title = "x".repeat(0x10000);
    assert_eq!(SSPMSerializer::serialize(&m), Err(EncodeError::TooLarge));
}

#[test]
fn empty_difficulty_name_writes_no_custom_field() {
    let mut m = sample_map(vec![note(1, 0.0, 0.0)]);
    m.difficulty_name = String::new();
    let bytes = SSPMSerializer::serialize(&m).expect("encode");
    let back = SSPMSerializer::deserialize(bytes).expect("decode");
    assert_eq!(back.difficulty_name, "");
}

#[test]
fn difficulty_round_trips_through_header() {
    let m = sample_map(vec![note(1, 0.0, 0.0)]);
    let bytes = SSPMSerializer::serialize(&m).expect("encode");
    assert_eq!(bytes[42], 3);
    let back = SSPMSerializer::deserialize(bytes).expect("decode");
    assert_eq!(back.difficulty, 3);
    assert_eq!(back.length, 9000);
}

#[test]
fn empty_audio_section_decodes_to_none() {
    // The has-audio flag is set but the audio section is empty: the
    // decoded map carries no audio.
    let mut m = sample_map(vec![note(1, 0.0, 0.0)]);
    m.audio = Some(Vec::new());
    let bytes = SSPMSerializer::serialize(&m).expect("encode");
    assert_eq!(bytes[45], 1);
    let back = SSPMSerializer::deserialize(bytes).expect("decode");
    assert_eq!(back.audio, None);
}

#[test]
fn custom_data_offsets_patched() {
    // The map has a difficulty name, so the first offset-table pair
    // must delimit the custom-data block, which starts with the field
    // count 1 and the field name.
    let m = sample_map(vec![note(1, 0.0, 0.0)]);
    let bytes = SSPMSerializer::serialize(&m).expect("encode");
    let cdo = u64::from_le_bytes(bytes[48..56].try_into().unwrap()) as usize;
    let cdl = u64::from_le_bytes(bytes[56..64].try_into().unwrap()) as usize;
    assert!(cdo >= 128);
    let block = &bytes[cdo..cdo + cdl];
    assert_eq!(&block[0..2], &1u16.to_le_bytes());
    assert_eq!(&block[2..4], &15u16.to_le_bytes());
    assert_eq!(&block[4..19], b"difficulty_name");
    assert_eq!(block[19], 0x09);
    assert_eq!(&block[20..22], &4u16.to_le_bytes());
    assert_eq!(&block[22..26], b"Hard");
    assert_eq!(block.len(), 26);
}

#[test]
fn zero_custom_data_offsets_when_no_difficulty_name() {
    let mut m = sample_map(vec![note(1, 0.0, 0.0)]);
    m.difficulty_name = String::new();
    let bytes = SSPMSerializer::serialize(&m).expect("encode");
    assert_eq!(&bytes[48..56], &0u64.to_le_bytes());
    assert_eq!(&bytes[56..64], &0u64.to_le_bytes());
}

#[test]
fn static_metadata_bytes_written() {
    let m = sample_map(vec![note(1, 0.0, 0.0), note(2, 5.0, 6.0)]);
    let bytes = SSPMSerializer::serialize(&m).expect("encode");
    assert_eq!(&bytes[0..4], b"SS+m");
    assert_eq!(&bytes[4..6], &[0x02, 0x00]);
    assert_eq!(&bytes[6..10], &[0, 0, 0, 0]);
    assert_eq!(&bytes[10..30], &[0u8; 20]);
    assert_eq!(&bytes[30..34], &9000u32.to_le_bytes());
    assert_eq!(&bytes[34..38], &2u32.to_le_bytes()); // note count
    assert_eq!(&bytes[38..42], &2u32.to_le_bytes()); // total records
    assert_eq!(bytes[42], 3); // difficulty
    assert_eq!(&bytes[43..45], &[0, 0]); // star rating
    assert_eq!(bytes[45], 1); // has audio
    assert_eq!(bytes[46], 0); // has cover
    assert_eq!(bytes[47], 0); // has mod
}

#[test]
fn schema_table_offsets_delimit_note_schema() {
    let m = sample_map(vec![note(1, 0.0, 0.0)]);
    let bytes = SSPMSerializer::serialize(&m).expect("encode");
    let so = u64::from_le_bytes(bytes[96..104].try_into().unwrap()) as usize;
    let sl = u64::from_le_bytes(bytes[104..112].try_into().unwrap()) as usize;
    let mut expected = vec![1u8];
    expected.extend_from_slice(&8u16.to_le_bytes());
    expected.extend_from_slice(b"ssp_note");
    expected.extend_from_slice(&[0x01, 0x07, 0x00]);
    assert_eq!(&bytes[so..so + sl], expected.as_slice());
}

#[test]
fn audio_offsets_delimit_audio_bytes() {
    let m = sample_map(vec![note(1, 0.0, 0.0)]);
    let bytes = SSPMSerializer::serialize(&m).expect("encode");
    let ao = u64::from_le_bytes(bytes[64..72].try_into().unwrap()) as usize;
    let al = u64::from_le_bytes(bytes[72..80].try_into().unwrap()) as usize;
    assert_eq!(al, 4);
    assert_eq!(&bytes[ao..ao + al], &[1, 2, 3, 4]);
}
