use crate::error::DecodeError;
use crate::le::{u16_bytes, u16_le, u32_bytes, u32_le, u64_bytes, u64_le};
use vstd::prelude::*;
use vstd::utf8::{decode_utf8, encode_utf8, valid_utf8};

verus! {

/// Target of a seek, mirroring the positions a seekable stream offers.
#[derive(Clone, Copy, Debug)]
pub enum SeekFrom {
    /// An absolute offset from the start of the stream.
    Start(u64),
    /// A signed offset from the current position.
    Current(i64),
    /// A signed offset from the end of the stream.
    End(i64),
}

/// The absolute position a seek resolves to, or `None` when it would fall
/// before the start of the stream or past `u64::MAX`.
pub open spec fn seek_target(cur: u64, len: nat, from: SeekFrom) -> Option<int> {
    let t: int = match from {
        SeekFrom::Start(p) => p as int,
        SeekFrom::Current(d) => cur + d,
        SeekFrom::End(d) => len + d,
    };
    if 0 <= t <= u64::MAX { Some(t) } else { None }
}

/// The stream contents after `bytes` are written at position `pos`:
/// bytes already there are overwritten and the stream grows as needed.
pub open spec fn write_at(data: Seq<u8>, pos: int, bytes: Seq<u8>) -> Seq<u8> {
    let end = if pos + bytes.len() <= data.len() {
        pos + bytes.len()
    } else {
        data.len() as int
    };
    data.take(pos) + bytes + data.skip(end)
}

/// Writing one byte more extends the written range by that byte.
pub proof fn lemma_write_at_step(data: Seq<u8>, pos: int, bytes: Seq<u8>, x: u8)
    requires
        0 <= pos <= data.len(),
    ensures
        write_at(write_at(data, pos, bytes), pos + bytes.len(), seq![x]) == write_at(
            data,
            pos,
            bytes.push(x),
        ),
{
    assert(write_at(write_at(data, pos, bytes), pos + bytes.len(), seq![x]) =~= write_at(
        data,
        pos,
        bytes.push(x),
    ));
}

/// Relies on `String::from_utf8`: it succeeds exactly on valid UTF-8 input
/// and yields the string whose characters vstd's `decode_utf8` gives.
#[verifier::external_body]
fn string_from_utf8_bytes(bytes: Vec<u8>) -> (r: Option<String>)
    ensures
        r is Some <==> valid_utf8(bytes@),
        r matches Some(s) ==> s@ == decode_utf8(bytes@),
{
    String::from_utf8(bytes).ok()
}

/// Typed little-endian reads over an in-memory byte stream. The position
/// may point past the end; every read past the end fails.
pub struct BinaryReader {
    pub data: Vec<u8>,
    pub pos: u64,
}

impl BinaryReader {
    /// True when `n` more bytes are available at the current position.
    pub open spec fn can_read(&self, n: nat) -> bool {
        self.pos + n <= self.data@.len()
    }

    pub fn new(data: Vec<u8>) -> (r: Self)
        ensures
            r.data@ == data@,
            r.pos == 0,
    {
        BinaryReader { data, pos: 0 }
    }

    pub fn stream_position(&self) -> (r: u64)
        ensures
            r == self.pos,
    {
        self.pos
    }

    /// Move the position; reading is what checks the stream's end, so a
    /// target past the end is allowed, as a seekable stream allows it.
    pub fn seek(&mut self, from: SeekFrom) -> (r: Result<u64, DecodeError>)
        ensures
            final(self).data@ == old(self).data@,
            match seek_target(old(self).pos, old(self).data@.len() as nat, from) {
                Some(t) => r matches Ok(p) && p == t && final(self).pos == t,
                None => r == Err::<u64, DecodeError>(DecodeError::InvalidEncoding) && final(self).pos == old(self).pos,
            },
    {
        match from {
            SeekFrom::Start(p) => {
                self.pos = p;
                Ok(p)
            },
            SeekFrom::Current(d) => {
                match add_signed(self.pos, d) {
                    Some(t) => {
                        self.pos = t;
                        Ok(t)
                    },
                    None => Err(DecodeError::InvalidEncoding),
                }
            },
            SeekFrom::End(d) => {
                match add_signed(self.data.len() as u64, d) {
                    Some(t) => {
                        self.pos = t;
                        Ok(t)
                    },
                    None => Err(DecodeError::InvalidEncoding),
                }
            },
        }
    }

    /// Read exactly `n` bytes. A short stream is a hard error and leaves
    /// the position where it was.
    pub fn read_exact(&mut self, n: usize) -> (r: Result<Vec<u8>, DecodeError>)
        ensures
            final(self).data@ == old(self).data@,
            old(self).can_read(n as nat) ==> (r matches Ok(v) && v@ == old(self).data@.subrange(
                old(self).pos as int,
                old(self).pos + n,
            ) && final(self).pos == old(self).pos + n),
            !old(self).can_read(n as nat) ==> r == Err::<Vec<u8>, DecodeError>(
                DecodeError::TruncatedInput,
            ) && final(self).pos == old(self).pos,
    {
        let len64 = self.data.len() as u64;
        if self.pos > len64 || (n as u64) > len64 - self.pos {
            return Err(DecodeError::TruncatedInput);
        }
        let start = self.pos as usize;
        let mut out: Vec<u8> = Vec::new();
        let mut i: usize = 0;
        while i < n
            invariant
                self.pos == old(self).pos,
                self.data@ == old(self).data@,
                start == old(self).pos,
                start + n <= self.data@.len(),
                start + n <= usize::MAX,
                i <= n,
                out@ == self.data@.subrange(start as int, start + i),
            decreases n - i,
        {
            out.push(self.data[start + i]);
            i = i + 1;
            proof {
                assert(out@ =~= self.data@.subrange(start as int, start + i));
            }
        }
        self.pos = self.pos + (n as u64);
        Ok(out)
    }

    pub fn read_u8(&mut self) -> (r: Result<u8, DecodeError>)
        ensures
            final(self).data@ == old(self).data@,
            old(self).can_read(1) ==> (r matches Ok(v) && v == old(self).data@[old(self).pos as int]
                && final(self).pos == old(self).pos + 1),
            !old(self).can_read(1) ==> r == Err::<u8, DecodeError>(DecodeError::TruncatedInput)
                && final(self).pos == old(self).pos,
    {
        match self.read_exact(1) {
            Ok(v) => Ok(v[0]),
            Err(e) => Err(e),
        }
    }

    /// One byte; `0x01` means true, every other value false.
    pub fn read_bool(&mut self) -> (r: Result<bool, DecodeError>)
        ensures
            final(self).data@ == old(self).data@,
            old(self).can_read(1) ==> (r matches Ok(v) && v == (old(self).data@[old(self).pos as int] == 1) && final(self).pos == old(self).pos + 1),
            !old(self).can_read(1) ==> r == Err::<bool, DecodeError>(DecodeError::TruncatedInput)
                && final(self).pos == old(self).pos,
    {
        match self.read_u8() {
            Ok(v) => Ok(v == 0x01),
            Err(e) => Err(e),
        }
    }

    pub fn read_u16(&mut self) -> (r: Result<u16, DecodeError>)
        ensures
            final(self).data@ == old(self).data@,
            old(self).can_read(2) ==> (r matches Ok(v) && v == u16_le(
                old(self).data@[old(self).pos as int],
                old(self).data@[old(self).pos + 1],
            ) && final(self).pos == old(self).pos + 2),
            !old(self).can_read(2) ==> r == Err::<u16, DecodeError>(DecodeError::TruncatedInput)
                && final(self).pos == old(self).pos,
    {
        match self.read_exact(2) {
            Ok(v) => Ok(v[0] as u16 + v[1] as u16 * 0x100),
            Err(e) => Err(e),
        }
    }

    pub fn read_u32(&mut self) -> (r: Result<u32, DecodeError>)
        ensures
            final(self).data@ == old(self).data@,
            old(self).can_read(4) ==> (r matches Ok(v) && v == u32_le(
                old(self).data@[old(self).pos as int],
                old(self).data@[old(self).pos + 1],
                old(self).data@[old(self).pos + 2],
                old(self).data@[old(self).pos + 3],
            ) && final(self).pos == old(self).pos + 4),
            !old(self).can_read(4) ==> r == Err::<u32, DecodeError>(DecodeError::TruncatedInput)
                && final(self).pos == old(self).pos,
    {
        match self.read_exact(4) {
            Ok(v) => Ok(
                v[0] as u32 + v[1] as u32 * 0x100 + v[2] as u32 * 0x10000 + v[3] as u32
                    * 0x1000000,
            ),
            Err(e) => Err(e),
        }
    }

    pub fn read_u64(&mut self) -> (r: Result<u64, DecodeError>)
        ensures
            final(self).data@ == old(self).data@,
            old(self).can_read(8) ==> (r matches Ok(v) && v == u64_le(
                old(self).data@[old(self).pos as int],
                old(self).data@[old(self).pos + 1],
                old(self).data@[old(self).pos + 2],
                old(self).data@[old(self).pos + 3],
                old(self).data@[old(self).pos + 4],
                old(self).data@[old(self).pos + 5],
                old(self).data@[old(self).pos + 6],
                old(self).data@[old(self).pos + 7],
            ) && final(self).pos == old(self).pos + 8),
            !old(self).can_read(8) ==> r == Err::<u64, DecodeError>(DecodeError::TruncatedInput)
                && final(self).pos == old(self).pos,
    {
        match self.read_exact(8) {
            Ok(v) => Ok(
                v[0] as u64 + v[1] as u64 * 0x100 + v[2] as u64 * 0x10000 + v[3] as u64 * 0x1000000
                    + v[4] as u64 * 0x100000000 + v[5] as u64 * 0x10000000000 + v[6] as u64
                    * 0x1000000000000 + v[7] as u64 * 0x100000000000000,
            ),
            Err(e) => Err(e),
        }
    }

    /// The fixed 20-byte hash field, read verbatim.
    pub fn read_sha1(&mut self) -> (r: Result<Vec<u8>, DecodeError>)
        ensures
            final(self).data@ == old(self).data@,
            old(self).can_read(20) ==> (r matches Ok(v) && v@ == old(self).data@.subrange(
                old(self).pos as int,
                old(self).pos + 20,
            ) && final(self).pos == old(self).pos + 20),
            !old(self).can_read(20) ==> r == Err::<Vec<u8>, DecodeError>(
                DecodeError::TruncatedInput,
            ) && final(self).pos == old(self).pos,
    {
        self.read_exact(20)
    }

    /// A 16-bit byte-length prefix followed by that many UTF-8 bytes.
    /// Bytes that are not valid UTF-8 are an `InvalidEncoding` error.
    pub fn read_string(&mut self) -> (r: Result<String, DecodeError>)
        ensures
            final(self).data@ == old(self).data@,
            r is Err ==> final(self).pos == old(self).pos,
            !old(self).can_read(2) ==> r == Err::<String, DecodeError>(DecodeError::TruncatedInput),
            old(self).can_read(2) ==> ({
                let p = old(self).pos as int;
                let d = old(self).data@;
                let n = u16_le(d[p], d[p + 1]) as int;
                &&& (p + 2 + n > d.len() ==> r == Err::<String, DecodeError>(
                    DecodeError::TruncatedInput,
                ))
                &&& (p + 2 + n <= d.len() && !valid_utf8(d.subrange(p + 2, p + 2 + n)) ==> r
                    == Err::<String, DecodeError>(DecodeError::InvalidEncoding))
                &&& (p + 2 + n <= d.len() && valid_utf8(d.subrange(p + 2, p + 2 + n)) ==> (
                r matches Ok(s) && s@ == decode_utf8(d.subrange(p + 2, p + 2 + n)) && final(self).pos == p + 2 + n))
            }),
    {
        let begin = self.pos;
        let n = match self.read_u16() {
            Ok(v) => v,
            Err(e) => { return Err(e) },
        };
        match self.read_exact(n as usize) {
            Ok(payload) => {
                match string_from_utf8_bytes(payload) {
                    Some(s) => Ok(s),
                    None => {
                        self.pos = begin;
                        Err(DecodeError::InvalidEncoding)
                    },
                }
            },
            Err(e) => {
                self.pos = begin;
                Err(e)
            },
        }
    }

    /// A 32-bit byte-length prefix followed by that many UTF-8 bytes.
    pub fn read_long_string(&mut self) -> (r: Result<String, DecodeError>)
        ensures
            final(self).data@ == old(self).data@,
            r is Err ==> final(self).pos == old(self).pos,
            !old(self).can_read(4) ==> r == Err::<String, DecodeError>(DecodeError::TruncatedInput),
            old(self).can_read(4) ==> ({
                let p = old(self).pos as int;
                let d = old(self).data@;
                let n = u32_le(d[p], d[p + 1], d[p + 2], d[p + 3]) as int;
                &&& (p + 4 + n > d.len() ==> r == Err::<String, DecodeError>(
                    DecodeError::TruncatedInput,
                ))
                &&& (p + 4 + n <= d.len() && !valid_utf8(d.subrange(p + 4, p + 4 + n)) ==> r
                    == Err::<String, DecodeError>(DecodeError::InvalidEncoding))
                &&& (p + 4 + n <= d.len() && valid_utf8(d.subrange(p + 4, p + 4 + n)) ==> (
                r matches Ok(s) && s@ == decode_utf8(d.subrange(p + 4, p + 4 + n)) && final(self).pos == p + 4 + n))
            }),
    {
        let begin = self.pos;
        let n = match self.read_u32() {
            Ok(v) => v,
            Err(e) => { return Err(e) },
        };
        if (n as u64) > (usize::MAX as u64) {
            return Err(DecodeError::TruncatedInput);
        }
        match self.read_exact(n as usize) {
            Ok(payload) => {
                match string_from_utf8_bytes(payload) {
                    Some(s) => Ok(s),
                    None => {
                        self.pos = begin;
                        Err(DecodeError::InvalidEncoding)
                    },
                }
            },
            Err(e) => {
                self.pos = begin;
                Err(e)
            },
        }
    }
}

/// `base + d` as a stream position, or `None` when it leaves `[0, u64::MAX]`.
fn add_signed(base: u64, d: i64) -> (r: Option<u64>)
    ensures
        0 <= base + d <= u64::MAX ==> r == Some((base + d) as u64),
        !(0 <= base + d <= u64::MAX) ==> r is None,
{
    if d >= 0 {
        if base <= u64::MAX - (d as u64) {
            Some(base + (d as u64))
        } else {
            None
        }
    } else {
        let mag: u64 = if d == i64::MIN {
            0x8000000000000000
        } else {
            (-d) as u64
        };
        if base >= mag {
            Some(base - mag)
        } else {
            None
        }
    }
}

/// Typed little-endian writes over an in-memory byte stream. Writing in
/// the middle overwrites; writing at the end appends. The position never
/// passes the end, which every write and seek preserves.
pub struct BinaryWriter {
    pub data: Vec<u8>,
    pub pos: usize,
}

impl BinaryWriter {
    /// The position stays inside the written stream.
    pub open spec fn wf(&self) -> bool {
        self.pos <= self.data@.len()
    }

    pub fn new() -> (r: Self)
        ensures
            r.wf(),
            r.data@ == Seq::<u8>::empty(),
            r.pos == 0,
    {
        BinaryWriter { data: Vec::new(), pos: 0 }
    }

    pub fn stream_position(&self) -> (r: u64)
        ensures
            r == self.pos,
    {
        self.pos as u64
    }

    /// Hand back the full stream written so far.
    pub fn into_inner(self) -> (r: Vec<u8>)
        ensures
            r@ == self.data@,
    {
        self.data
    }

    /// Move the position; a target outside the written stream is refused,
    /// so that later writes stay contiguous.
    pub fn seek(&mut self, from: SeekFrom) -> (r: Result<u64, DecodeError>)
        requires
            old(self).wf(),
        ensures
            final(self).wf(),
            final(self).data@ == old(self).data@,
            match seek_target(old(self).pos as u64, old(self).data@.len() as nat, from) {
                Some(t) => if t <= old(self).data@.len() {
                    r matches Ok(p) && p == t && final(self).pos == t
                } else {
                    r == Err::<u64, DecodeError>(DecodeError::InvalidEncoding) && final(self).pos
                        == old(self).pos
                },
                None => r == Err::<u64, DecodeError>(DecodeError::InvalidEncoding) && final(self).pos == old(self).pos,
            },
    {
        let target: Option<u64> = match from {
            SeekFrom::Start(p) => Some(p),
            SeekFrom::Current(d) => add_signed(self.pos as u64, d),
            SeekFrom::End(d) => add_signed(self.data.len() as u64, d),
        };
        match target {
            Some(t) => {
                if t <= self.data.len() as u64 {
                    self.pos = t as usize;
                    Ok(t)
                } else {
                    Err(DecodeError::InvalidEncoding)
                }
            },
            None => Err(DecodeError::InvalidEncoding),
        }
    }

    /// Write a single byte at the position.
    fn write_byte(&mut self, b: u8)
        requires
            old(self).wf(),
        ensures
            final(self).wf(),
            final(self).data@ == write_at(old(self).data@, old(self).pos as int, seq![b]),
            final(self).pos == old(self).pos + 1,
    {
        if self.pos < self.data.len() {
            self.data.set(self.pos, b);
            self.pos = self.pos + 1;
            proof {
                assert(self.data@ =~= write_at(old(self).data@, old(self).pos as int, seq![b]));
            }
        } else {
            self.data.push(b);
            self.pos = self.data.len();
            proof {
                assert(self.data@ =~= write_at(old(self).data@, old(self).pos as int, seq![b]));
            }
        }
    }

    /// Write every byte of `buf` at the position.
    pub fn write_all(&mut self, buf: &[u8])
        requires
            old(self).wf(),
        ensures
            final(self).wf(),
            final(self).data@ == write_at(old(self).data@, old(self).pos as int, buf@),
            final(self).pos == old(self).pos + buf@.len(),
    {
        let n = buf.len();
        let mut i: usize = 0;
        proof {
            assert(self.data@ =~= write_at(old(self).data@, old(self).pos as int, buf@.take(0)));
        }
        while i < n
            invariant
                i <= n,
                n == buf@.len(),
                self.wf(),
                old(self).wf(),
                self.data@ == write_at(old(self).data@, old(self).pos as int, buf@.take(i as int)),
                self.pos == old(self).pos + i,
            decreases n - i,
        {
            let ghost prev = self.data@;
            self.write_byte(buf[i]);
            proof {
                lemma_write_at_step(old(self).data@, old(self).pos as int, buf@.take(i as int), buf@[i as int]);
                assert(buf@.take(i as int).push(buf@[i as int]) =~= buf@.take(i + 1));
            }
            i = i + 1;
        }
        proof {
            assert(buf@.take(n as int) =~= buf@);
        }
    }

    /// One byte: `0x01` for true, `0x00` for false.
    pub fn write_bool(&mut self, value: bool)
        requires
            old(self).wf(),
        ensures
            final(self).wf(),
            final(self).data@ == write_at(
                old(self).data@,
                old(self).pos as int,
                seq![if value { 1u8 } else { 0u8 }],
            ),
            final(self).pos == old(self).pos + 1,
    {
        let byte: u8 = if value {
            0x01
        } else {
            0x00
        };
        self.write_byte(byte);
    }

    pub fn write_u8(&mut self, value: u8)
        requires
            old(self).wf(),
        ensures
            final(self).wf(),
            final(self).data@ == write_at(old(self).data@, old(self).pos as int, seq![value]),
            final(self).pos == old(self).pos + 1,
    {
        self.write_byte(value);
    }

    pub fn write_u16(&mut self, value: u16)
        requires
            old(self).wf(),
        ensures
            final(self).wf(),
            final(self).data@ == write_at(old(self).data@, old(self).pos as int, u16_bytes(value)),
            final(self).pos == old(self).pos + 2,
    {
        let tmp: Vec<u8> = vec![(value % 0x100) as u8, (value / 0x100) as u8];
        proof {
            assert(tmp@ =~= u16_bytes(value));
        }
        self.write_all(tmp.as_slice());
    }

    pub fn write_u32(&mut self, value: u32)
        requires
            old(self).wf(),
        ensures
            final(self).wf(),
            final(self).data@ == write_at(old(self).data@, old(self).pos as int, u32_bytes(value)),
            final(self).pos == old(self).pos + 4,
    {
        let tmp: Vec<u8> = vec![
            (value % 0x100) as u8,
            ((value / 0x100) % 0x100) as u8,
            ((value / 0x10000) % 0x100) as u8,
            ((value / 0x1000000) % 0x100) as u8,
        ];
        proof {
            assert(tmp@ =~= u32_bytes(value));
        }
        self.write_all(tmp.as_slice());
    }

    pub fn write_u64(&mut self, value: u64)
        requires
            old(self).wf(),
        ensures
            final(self).wf(),
            final(self).data@ == write_at(old(self).data@, old(self).pos as int, u64_bytes(value)),
            final(self).pos == old(self).pos + 8,
    {
        let tmp: Vec<u8> = vec![
            (value % 0x100) as u8,
            ((value / 0x100) % 0x100) as u8,
            ((value / 0x10000) % 0x100) as u8,
            ((value / 0x1000000) % 0x100) as u8,
            ((value / 0x100000000) % 0x100) as u8,
            ((value / 0x10000000000) % 0x100) as u8,
            ((value / 0x1000000000000) % 0x100) as u8,
            ((value / 0x100000000000000) % 0x100) as u8,
        ];
        proof {
            assert(tmp@ =~= u64_bytes(value));
        }
        self.write_all(tmp.as_slice());
    }

    /// A 16-bit byte-length prefix, then the string's UTF-8 bytes.
    pub fn write_string(&mut self, value: &str)
        requires
            old(self).wf(),
            encode_utf8(value@).len() <= 0xFFFF,
        ensures
            final(self).wf(),
            final(self).data@ == write_at(
                old(self).data@,
                old(self).pos as int,
                u16_bytes(encode_utf8(value@).len() as u16) + encode_utf8(value@),
            ),
            final(self).pos == old(self).pos + 2 + encode_utf8(value@).len(),
    {
        let bytes = value.as_bytes();
        let ghost mid = self.data@;
        self.write_u16(bytes.len() as u16);
        self.write_all(bytes);
        proof {
            lemma_write_at_concat(
                old(self).data@,
                old(self).pos as int,
                u16_bytes(encode_utf8(value@).len() as u16),
                bytes@,
            );
        }
    }

    /// A 32-bit byte-length prefix, then the string's UTF-8 bytes.
    pub fn write_long_string(&mut self, value: &str)
        requires
            old(self).wf(),
            encode_utf8(value@).len() <= 0xFFFFFFFF,
        ensures
            final(self).wf(),
            final(self).data@ == write_at(
                old(self).data@,
                old(self).pos as int,
                u32_bytes(encode_utf8(value@).len() as u32) + encode_utf8(value@),
            ),
            final(self).pos == old(self).pos + 4 + encode_utf8(value@).len(),
    {
        let bytes = value.as_bytes();
        self.write_u32(bytes.len() as u32);
        self.write_all(bytes);
        proof {
            lemma_write_at_concat(
                old(self).data@,
                old(self).pos as int,
                u32_bytes(encode_utf8(value@).len() as u32),
                bytes@,
            );
        }
    }

    /// The fixed 20-byte hash field, written verbatim.
    pub fn write_sha1(&mut self, value: &Vec<u8>)
        requires
            old(self).wf(),
            value@.len() == 20,
        ensures
            final(self).wf(),
            final(self).data@ == write_at(old(self).data@, old(self).pos as int, value@),
            final(self).pos == old(self).pos + 20,
    {
        self.write_all(value.as_slice());
    }
}


/// A write at the end of the stream appends its bytes.
pub proof fn lemma_write_append(data: Seq<u8>, bytes: Seq<u8>)
    ensures
        write_at(data, data.len() as int, bytes) == data + bytes,
{
    assert(write_at(data, data.len() as int, bytes) =~= data + bytes);
}

/// Two consecutive writes act as one write of the concatenation.
pub proof fn lemma_write_at_concat(data: Seq<u8>, pos: int, b1: Seq<u8>, b2: Seq<u8>)
    requires
        0 <= pos <= data.len(),
    ensures
        write_at(write_at(data, pos, b1), pos + b1.len(), b2) == write_at(data, pos, b1 + b2),
    decreases b2.len(),
{
    if b2.len() == 0 {
        assert(b1 + b2 =~= b1);
        assert(write_at(write_at(data, pos, b1), pos + b1.len(), b2) =~= write_at(data, pos, b1));
    } else {
        let x = b2[0];
        lemma_write_at_step(data, pos, b1, x);
        lemma_write_at_concat(data, pos, b1.push(x), b2.drop_first());
        assert(b1.push(x) + b2.drop_first() =~= b1 + b2);
        assert(write_at(write_at(data, pos, b1), pos + b1.len(), b2) =~= write_at(
            write_at(write_at(data, pos, b1), pos + b1.len(), seq![x]),
            pos + b1.len() + 1,
            b2.drop_first(),
        ));
    }
}

} // verus!
