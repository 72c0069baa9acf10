use crate::error::DecodeError;
use crate::fbits::{
    bits_of_small_int, compact_byte, f32_is_int, f32_near_int, f32_scaled, lemma_near_some,
    quantizable,
};
use crate::le::{lemma_u32_round_trip, u32_bytes, u32_le};
use crate::map::{note_of_record, Note};
use crate::sspm::{
    magic_bytes, spec_deserialize, spec_note_bytes, spec_notes_bytes, spec_parse_fields,
    spec_parse_records, spec_parse_value, spec_parse_vec2,
};
use crate::map::MapView;
use crate::value::{RecordView, SchemaView, TagKind, ValueView, Vec2};
use vstd::arithmetic::power2::{lemma2_to64, lemma_pow2_adds, lemma_pow2_pos, pow2};
use vstd::prelude::*;

verus! {

// The laws this codec obeys, stated over the same spec functions its
// decode and encode contracts use.

/// The schema entry the encoder always writes: the reserved note name
/// with a single 2D-vector slot.
pub open spec fn note_schema() -> SchemaView {
    SchemaView { name: "ssp_note"@, slots: seq![TagKind::Vec2] }
}

/// How a decoded note relates to the note it was encoded from. An axis
/// pair that fit the compact form comes back as the compact byte read
/// minus two — one unit below the nearest integer, by the format's
/// asymmetric compact offsets; any other position comes back bit-exact.
pub open spec fn note_round(orig: Note, dec: Note) -> bool {
    &&& dec.millisecond == orig.millisecond
    &&& if quantizable(orig.position.x) && quantizable(orig.position.y) {
        dec.position.x == bits_of_small_int(compact_byte(orig.position.x) - 2)
            && dec.position.y == bits_of_small_int(compact_byte(orig.position.y) - 2)
    } else {
        dec.position == orig.position
    }
}

/// The constructive bit pattern of a small integer denotes exactly that
/// integer.
pub proof fn lemma_bits_of_small_int(n: int)
    requires
        -254 <= n <= 254,
    ensures
        f32_is_int(bits_of_small_int(n), n),
{
    lemma2_to64();
    lemma_pow2_pos(149);
    if n == 0 {
        assert((0u32 >> 23) & 0xff == 0 && 0u32 & 0x7fffff == 0 && (0u32 >> 31) == 0)
            by (bit_vector);
        assert(f32_scaled(0) == 0);
        assert((0int) * pow2(149) == 0) by (nonlinear_arith);
    } else {
        let a: int = if n < 0 {
            -n
        } else {
            n
        };
        let k: nat = if a >= 128 {
            7
        } else if a >= 64 {
            6
        } else if a >= 32 {
            5
        } else if a >= 16 {
            4
        } else if a >= 8 {
            3
        } else if a >= 4 {
            2
        } else if a >= 2 {
            1
        } else {
            0
        };
        let sign: u32 = if n < 0 {
            0x80000000
        } else {
            0
        };
        let scale: int = pow2((23 - k) as nat) as int;
        assert(0x800000 <= a * scale < 0x1000000) by (nonlinear_arith)
            requires
                (k == 7 && scale == 0x10000 && 128 <= a < 256) || (k == 6 && scale == 0x20000 && 64
                    <= a < 128) || (k == 5 && scale == 0x40000 && 32 <= a < 64) || (k == 4 && scale
                    == 0x80000 && 16 <= a < 32) || (k == 3 && scale == 0x100000 && 8 <= a < 16) || (
                k == 2 && scale == 0x200000 && 4 <= a < 8) || (k == 1 && scale == 0x400000 && 2 <= a
                    < 4) || (k == 0 && scale == 0x800000 && a == 1),
        ;
        let mant: u32 = (a * scale - 0x800000) as u32;
        let eb: u32 = (127 + k) as u32;
        let r = sign | (eb << 23u32) | mant;
        assert(r == bits_of_small_int(n));
        let s32 = sign;
        let mb = mant;
        assert(((s32 | (eb << 23) | mb) >> 23) & 0xff == eb && ((s32 | (eb << 23) | mb) & 0x7fffff)
            == mb && (((s32 | (eb << 23) | mb) >> 31) == 1 <==> s32 == 0x80000000)) by (bit_vector)
            requires
                mb < 0x800000,
                127 <= eb <= 134,
                s32 == 0 || s32 == 0x80000000,
        ;
        lemma_pow2_adds((23 - k) as nat, (126 + k) as nat);
        assert((mant + 0x800000) * pow2((126 + k) as nat) == a * pow2(149)) by (nonlinear_arith)
            requires
                mant + 0x800000 == a * scale,
                scale == pow2((23 - k) as nat),
                pow2((23 - k) as nat) * pow2((126 + k) as nat) == pow2(149),
        ;
        if n < 0 {
            assert(f32_scaled(r) == -(a * pow2(149)));
            assert(-(a * pow2(149)) == n * pow2(149)) by (nonlinear_arith)
                requires
                    a == -n,
            ;
        } else {
            assert(f32_scaled(r) == a * pow2(149));
        }
    }
}

/// Quantization boundary, compact side: an axis that denotes exactly an
/// integer in the byte range is written compact as that integer plus
/// one, and the compact form decodes to exactly one unit below it.
pub proof fn lemma_compact_error_one(x: u32, k: int)
    requires
        0 <= k <= 254,
        f32_is_int(x, k),
    ensures
        quantizable(x),
        compact_byte(x) == k + 1,
        f32_is_int(bits_of_small_int(compact_byte(x) - 2), k - 1),
{
    lemma_pow2_pos(149);
    assert(f32_near_int(x, k));
    lemma_near_some(x, k);
    lemma_bits_of_small_int(k - 1);
}

/// Header rejection: a stream whose first four bytes are not the magic
/// always decodes to `FormatError`, before any other field is read.
pub proof fn lemma_header_rejection(d: Seq<u8>)
    requires
        d.len() >= 4,
        d.subrange(0, 4) != magic_bytes(),
    ensures
        spec_deserialize(d) == Err::<MapView, DecodeError>(DecodeError::FormatError),
{
}

/// Version gate: a stream whose version field is not 2 always decodes
/// to `FormatError`, whatever else it holds.
pub proof fn lemma_version_gate(d: Seq<u8>)
    requires
        d.len() >= 6,
        d.subrange(0, 4) == magic_bytes(),
        !(d[4] == 2 && d[5] == 0),
    ensures
        spec_deserialize(d) == Err::<MapView, DecodeError>(DecodeError::FormatError),
{
}

/// Schema dispatch: a record stream whose next record references an
/// unregistered schema id fails with `InvalidEncoding`, and the parse
/// never skips its bytes. Errors propagate through the stream parse, so
/// this holds wherever in the stream such a record stands.
pub proof fn lemma_unknown_schema_rejected(
    d: Seq<u8>,
    pos: int,
    end: int,
    schemas: Seq<SchemaView>,
)
    requires
        pos < end,
        pos + 5 <= d.len(),
        d[pos + 4] >= schemas.len(),
    ensures
        spec_parse_records(d, pos, end, schemas) == Err::<
            (Seq<Note>, Seq<RecordView>),
            DecodeError,
        >(DecodeError::InvalidEncoding),
{
}

/// Unknown records preserved: a record whose schema name is not the
/// reserved note name is appended to the opaque list with its decoded
/// field values intact, and the note list is untouched by it.
pub proof fn lemma_unknown_record_preserved(
    d: Seq<u8>,
    pos: int,
    end: int,
    schemas: Seq<SchemaView>,
)
    requires
        pos < end,
        pos + 5 <= d.len(),
        d[pos + 4] < schemas.len(),
        schemas[d[pos + 4] as int].name != "ssp_note"@,
    ensures
        ({
            let id = d[pos + 4] as int;
            let ms = u32_le(d[pos], d[pos + 1], d[pos + 2], d[pos + 3]);
            match spec_parse_fields(d, pos + 5, schemas[id].slots) {
                Ok((fields, np)) => (pos + 5 <= np <= end) ==> (match spec_parse_records(
                    d,
                    np,
                    end,
                    schemas,
                ) {
                    Ok((ns, os)) => spec_parse_records(d, pos, end, schemas) == Ok::<
                        (Seq<Note>, Seq<RecordView>),
                        DecodeError,
                    >(
                        (
                            ns,
                            seq![RecordView { name: schemas[id].name, millisecond: ms, fields }]
                                + os,
                        ),
                    ),
                    Err(e) => spec_parse_records(d, pos, end, schemas) == Err::<
                        (Seq<Note>, Seq<RecordView>),
                        DecodeError,
                    >(e),
                }),
                Err(e) => spec_parse_records(d, pos, end, schemas) == Err::<
                    (Seq<Note>, Seq<RecordView>),
                    DecodeError,
                >(e),
            }
        }),
{
}

/// Round trip of the record stream, for maps that hold only notes: the
/// bytes the encoder writes for a note list always parse, yield no
/// opaque records, and give back one note per note written, each
/// related to its original by `note_round`.
pub proof fn lemma_note_stream_round_trip(ns: Seq<Note>)
    ensures
        ({
            let d = spec_notes_bytes(ns);
            match spec_parse_records(d, 0, d.len() as int, seq![note_schema()]) {
                Ok((notes, objs)) => objs.len() == 0 && notes.len() == ns.len() && (forall|i: int|
                    0 <= i < ns.len() ==> note_round(ns[i], #[trigger] notes[i])),
                Err(_) => false,
            }
        }),
{
    let d = spec_notes_bytes(ns);
    assert(d.subrange(0, d.len() as int) =~= d);
    lemma_note_stream_round_trip_at(d, 0, d.len() as int, ns);
}

/// The same round trip read off an encoded stream: wherever a stream
/// holds the encoder's record section — as `SSPMSerializer::serialize`
/// guarantees of its output between the offsets it patches in — that
/// section parses back to the map's notes, one per note, each related
/// by `note_round`, with no opaque records.
pub proof fn lemma_encoded_records_parse(d: Seq<u8>, ro: int, rl: int, ns: Seq<Note>)
    requires
        0 <= ro,
        ro + rl <= d.len(),
        rl == spec_notes_bytes(ns).len(),
        d.subrange(ro, ro + rl) == spec_notes_bytes(ns),
    ensures
        ({
            match spec_parse_records(d, ro, ro + rl, seq![note_schema()]) {
                Ok((notes, objs)) => objs.len() == 0 && notes.len() == ns.len() && (forall|i: int|
                    0 <= i < ns.len() ==> note_round(ns[i], #[trigger] notes[i])),
                Err(_) => false,
            }
        }),
{
    lemma_note_stream_round_trip_at(d, ro, ro + rl, ns);
}

/// Parsing one encoded note record body: the single 2D-vector field
/// comes back as `note_round` describes, and the parse ends exactly at
/// the record's end.
#[verifier::rlimit(100)]
#[verifier::spinoff_prover]
proof fn lemma_note_record_parse(d: Seq<u8>, pos: int, n0: Note)
    requires
        0 <= pos,
        pos + spec_note_bytes(n0).len() <= d.len(),
        forall|i: int|
            0 <= i < spec_note_bytes(n0).len() ==> d[pos + i] == #[trigger] spec_note_bytes(n0)[i],
    ensures
        u32_le(d[pos], d[pos + 1], d[pos + 2], d[pos + 3]) == n0.millisecond,
        d[pos + 4] == 0,
        ({
            match spec_parse_fields(d, pos + 5, note_schema().slots) {
                Ok((fields, np)) => np == pos + spec_note_bytes(n0).len() && (match note_of_record(
                    n0.millisecond,
                    fields,
                ) {
                    Ok(dec) => note_round(n0, dec),
                    Err(_) => false,
                }),
                Err(_) => false,
            }
        }),
{
    let nb = spec_note_bytes(n0);
    let head = u32_bytes(n0.millisecond) + seq![0u8];
    let tail: Seq<u8> = if quantizable(n0.position.x) && quantizable(n0.position.y) {
        seq![0u8, compact_byte(n0.position.x), compact_byte(n0.position.y)]
    } else {
        seq![1u8] + u32_bytes(n0.position.x) + u32_bytes(n0.position.y)
    };
    assert(nb == head + tail);
    assert(nb.len() == 5 + tail.len());
    assert forall|i: int| 0 <= i < 4 implies nb[i] == u32_bytes(n0.millisecond)[i] by {
        assert((head + tail)[i] == head[i]);
        assert(head[i] == u32_bytes(n0.millisecond)[i]);
    }
    assert(nb[4] == head[4]);
    assert(nb[4] == 0);
    assert forall|i: int| 0 <= i < tail.len() implies nb[5 + i] == tail[i] by {
        assert((head + tail)[5 + i] == tail[i]);
    }
    lemma_u32_round_trip(n0.millisecond);
    assert(d[pos + 0] == nb[0] && d[pos + 1] == nb[1] && d[pos + 2] == nb[2] && d[pos + 3] == nb[3]
        && d[pos + 4] == nb[4]);
    assert(u32_le(d[pos], d[pos + 1], d[pos + 2], d[pos + 3]) == n0.millisecond);
    let np = pos + nb.len();
    if quantizable(n0.position.x) && quantizable(n0.position.y) {
        assert(tail[0] == 0 && tail[1] == compact_byte(n0.position.x) && tail[2] == compact_byte(
            n0.position.y,
        ));
        assert(d[pos + 5] == nb[5] && d[pos + 6] == nb[6] && d[pos + 7] == nb[7]);
        assert(spec_parse_vec2(d, pos + 5) == Ok::<(ValueView, int), DecodeError>(
            (
                ValueView::Vec2(
                    Some(
                        Vec2 {
                            x: bits_of_small_int(compact_byte(n0.position.x) - 2),
                            y: bits_of_small_int(compact_byte(n0.position.y) - 2),
                        },
                    ),
                ),
                pos + 8,
            ),
        ));
    } else {
        assert(tail[0] == (seq![1u8] + u32_bytes(n0.position.x) + u32_bytes(n0.position.y))[0]);
        assert(tail[0] == 1);
        assert forall|i: int| 0 <= i < 4 implies tail[1 + i] == u32_bytes(n0.position.x)[i] && tail[5
            + i] == u32_bytes(n0.position.y)[i] by {
            assert((seq![1u8] + u32_bytes(n0.position.x) + u32_bytes(n0.position.y))[1 + i]
                == u32_bytes(n0.position.x)[i]);
            assert((seq![1u8] + u32_bytes(n0.position.x) + u32_bytes(n0.position.y))[5 + i]
                == u32_bytes(n0.position.y)[i]);
        }
        assert(d[pos + 5] == nb[5] && d[pos + 6] == nb[6] && d[pos + 7] == nb[7] && d[pos + 8]
            == nb[8] && d[pos + 9] == nb[9] && d[pos + 10] == nb[10] && d[pos + 11] == nb[11] && d[
            pos + 12] == nb[12] && d[pos + 13] == nb[13]);
        lemma_u32_round_trip(n0.position.x);
        lemma_u32_round_trip(n0.position.y);
        assert(u32_le(d[pos + 6], d[pos + 7], d[pos + 8], d[pos + 9]) == n0.position.x);
        assert(u32_le(d[pos + 10], d[pos + 11], d[pos + 12], d[pos + 13]) == n0.position.y);
        assert(spec_parse_vec2(d, pos + 5) == Ok::<(ValueView, int), DecodeError>(
            (ValueView::Vec2(Some(Vec2 { x: n0.position.x, y: n0.position.y })), pos + 14),
        ));
    }
    let slots = note_schema().slots;
    assert(slots[0] == TagKind::Vec2);
    assert(slots.drop_first() =~= Seq::<TagKind>::empty());
    let (vv, vp) = spec_parse_value(d, pos + 5, TagKind::Vec2).unwrap();
    assert(vp == np);
    assert(spec_parse_fields(d, np, slots.drop_first()) == Ok::<(Seq<ValueView>, int), DecodeError>(
        (Seq::empty(), np),
    ));
    assert(spec_parse_fields(d, pos + 5, slots) == Ok::<(Seq<ValueView>, int), DecodeError>(
        (seq![vv] + Seq::empty(), np),
    ));
    let fields = seq![vv] + Seq::<ValueView>::empty();
    assert(fields =~= seq![vv]);
    assert(fields.len() == 1);
    let dec = note_of_record(n0.millisecond, fields).unwrap();
    assert(note_round(n0, dec));
}

/// Inductive core of the round trip: the tail of `d` from `pos` holds
/// exactly the bytes of `ns`.
#[verifier::rlimit(100)]
#[verifier::spinoff_prover]
proof fn lemma_note_stream_round_trip_at(d: Seq<u8>, pos: int, end: int, ns: Seq<Note>)
    requires
        0 <= pos <= end <= d.len(),
        d.subrange(pos, end) == spec_notes_bytes(ns),
    ensures
        ({
            match spec_parse_records(d, pos, end, seq![note_schema()]) {
                Ok((notes, objs)) => objs.len() == 0 && notes.len() == ns.len() && (forall|i: int|
                    0 <= i < ns.len() ==> note_round(ns[i], #[trigger] notes[i])),
                Err(_) => false,
            }
        }),
    decreases ns.len(),
{
    let schemas = seq![note_schema()];
    reveal_strlit("ssp_note");
    if ns.len() == 0 {
        assert(spec_notes_bytes(ns).len() == 0);
        assert(pos == end);
    } else {
        let n0 = ns[0];
        let nb = spec_note_bytes(n0);
        let rest = spec_notes_bytes(ns.drop_first());
        assert(spec_notes_bytes(ns) == nb + rest);
        assert(end - pos == nb.len() + rest.len());
        assert forall|i: int| 0 <= i < nb.len() implies d[pos + i] == #[trigger] nb[i] by {
            assert(d[pos + i] == d.subrange(pos, end)[i]);
            assert((nb + rest)[i] == nb[i]);
        }
        lemma_note_record_parse(d, pos, n0);
        let np = pos + nb.len();
        let ms = u32_le(d[pos], d[pos + 1], d[pos + 2], d[pos + 3]);
        let (fields, fp) = spec_parse_fields(d, pos + 5, schemas[0].slots).unwrap();
        assert(fp == np);
        let dec = note_of_record(ms, fields).unwrap();
        assert(note_round(n0, dec));
        assert(d.subrange(np, end) =~= rest) by {
            assert forall|i: int| 0 <= i < rest.len() implies d.subrange(np, end)[i] == rest[i] by {
                assert(d.subrange(np, end)[i] == d[np + i]);
                assert(d[np + i] == d.subrange(pos, end)[nb.len() + i]);
                assert((nb + rest)[nb.len() + i] == rest[i]);
            }
        }
        lemma_note_stream_round_trip_at(d, np, end, ns.drop_first());
        let (notes2, objs2) = spec_parse_records(d, np, end, schemas).unwrap();
        assert(spec_parse_records(d, pos, end, schemas) == Ok::<
            (Seq<Note>, Seq<RecordView>),
            DecodeError,
        >((seq![dec] + notes2, objs2)));
        let notes = seq![dec] + notes2;
        assert forall|i: int| 0 <= i < ns.len() implies note_round(ns[i], #[trigger] notes[i]) by {
            if i == 0 {
                assert(notes[0] == dec);
            } else {
                assert(notes[i] == notes2[i - 1]);
                assert(ns[i] == ns.drop_first()[i - 1]);
            }
        }
    }
}

} // verus!
