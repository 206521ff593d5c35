//! One log record and its binary form: a 22-byte big-endian header, then
//! the key, then the value.

use crate::bitcask::utils::hash_routine::encode_vec_u8;
use crate::bitcask::utils::hash_routine::spec_encode_vec_u8;
use crate::bitcask::utils::time_routine::time_now;
use vstd::prelude::*;

verus! {

/// Number of bytes in the fixed header that precedes key and value.
pub const ENTRY_HEADER_SIZE: u32 = 22;

/// One log record.
///
/// `state` packs the reserved type into its high byte and the operation mark
/// into its low byte. `time_stamp` is the write time, or the expiry deadline
/// for a record that sets a key with a deadline.
pub struct Entry {
    pub valid: bool,
    pub crc32: u32,
    pub key_size: u32,
    pub value_size: u32,
    pub state: u16,
    pub time_stamp: u64,
    pub key: Vec<u8>,
    pub value: Vec<u8>,
}

/// The mathematical content of an [`Entry`].
pub ghost struct EntryView {
    pub valid: bool,
    pub crc32: u32,
    pub key_size: u32,
    pub value_size: u32,
    pub state: u16,
    pub time_stamp: u64,
    pub key: Seq<u8>,
    pub value: Seq<u8>,
}

impl View for Entry {
    type V = EntryView;

    open spec fn view(&self) -> EntryView {
        EntryView {
            valid: self.valid,
            crc32: self.crc32,
            key_size: self.key_size,
            value_size: self.value_size,
            state: self.state,
            time_stamp: self.time_stamp,
            key: self.key@,
            value: self.value@,
        }
    }
}

/// Big-endian bytes of a 16-bit word.
pub open spec fn be16(x: u16) -> Seq<u8> {
    seq![(x >> 8) as u8, x as u8]
}

/// Big-endian bytes of a 32-bit word.
pub open spec fn be32(x: u32) -> Seq<u8> {
    seq![(x >> 24) as u8, (x >> 16) as u8, (x >> 8) as u8, x as u8]
}

/// Big-endian bytes of a 64-bit word.
pub open spec fn be64(x: u64) -> Seq<u8> {
    seq![
        (x >> 56) as u8,
        (x >> 48) as u8,
        (x >> 40) as u8,
        (x >> 32) as u8,
        (x >> 24) as u8,
        (x >> 16) as u8,
        (x >> 8) as u8,
        x as u8,
    ]
}

/// The 16-bit word stored big-endian at `buf[at..at + 2]`.
pub open spec fn be16_at(buf: Seq<u8>, at: int) -> u16 {
    (buf[at + 1] as u16) | ((buf[at] as u16) << 8)
}

/// The 32-bit word stored big-endian at `buf[at..at + 4]`.
pub open spec fn be32_at(buf: Seq<u8>, at: int) -> u32 {
    (buf[at + 3] as u32) | ((buf[at + 2] as u32) << 8) | ((buf[at + 1] as u32) << 16) | ((buf[at] as u32)
        << 24)
}

/// The 64-bit word stored big-endian at `buf[at..at + 8]`.
pub open spec fn be64_at(buf: Seq<u8>, at: int) -> u64 {
    (buf[at + 7] as u64) | ((buf[at + 6] as u64) << 8) | ((buf[at + 5] as u64) << 16) | ((buf[at
        + 4] as u64) << 24) | ((buf[at + 3] as u64) << 32) | ((buf[at + 2] as u64) << 40) | ((buf[at
        + 1] as u64) << 48) | ((buf[at] as u64) << 56)
}

/// The checksum stored with a record: the hash of the value bytes folded to
/// 32 bits.
pub open spec fn checksum(value: Seq<u8>) -> u32 {
    spec_encode_vec_u8(value, 32) as u32
}

/// The packed state field: reserved type in the high byte, mark in the low.
pub open spec fn pack_state(t: u16, mark: u16) -> u16 {
    (t << 8) | mark
}

/// The operation mark held in the low byte of a state field.
pub open spec fn mark_of(state: u16) -> u16 {
    state & 0xff
}

/// The 22 header bytes for the given fields.
pub open spec fn header_bytes(crc32: u32, key_size: u32, value_size: u32, state: u16, time_stamp: u64) -> Seq<u8> {
    be32(crc32) + be32(key_size) + be32(value_size) + be16(state) + be64(time_stamp)
}

/// What a header of at least 22 bytes decodes to: the fixed fields, with no
/// payload read yet and the record not yet marked valid.
pub open spec fn decoded_header(buf: Seq<u8>) -> EntryView
    recommends
        buf.len() >= 22,
{
    EntryView {
        valid: false,
        crc32: be32_at(buf, 0),
        key_size: be32_at(buf, 4),
        value_size: be32_at(buf, 8),
        state: be16_at(buf, 12),
        time_stamp: be64_at(buf, 14),
        key: Seq::empty(),
        value: Seq::empty(),
    }
}

/// The record that the constructors build from a key, a value and a time.
pub open spec fn fresh_entry(key: Seq<u8>, value: Seq<u8>, time_stamp: u64, t: u16, mark: u16) -> EntryView {
    EntryView {
        valid: true,
        crc32: 0,
        key_size: key.len() as u32,
        value_size: value.len() as u32,
        state: pack_state(t, mark),
        time_stamp,
        key,
        value,
    }
}

impl EntryView {
    /// The header sizes say how long key and value really are.
    pub open spec fn sizes_match(self) -> bool {
        self.key_size == self.key.len() && self.value_size == self.value.len()
    }

    /// Encoded length in bytes: header, key, value.
    pub open spec fn size(self) -> int {
        22 + self.key_size + self.value_size
    }

    /// The operation mark.
    pub open spec fn mark(self) -> u16 {
        mark_of(self.state)
    }

    /// The bytes this record is stored as. The stored checksum is computed
    /// from the value, whatever `crc32` holds.
    pub open spec fn encoding(self) -> Seq<u8> {
        header_bytes(checksum(self.value), self.key_size, self.value_size, self.state, self.time_stamp)
            + self.key + self.value
    }

    /// The record as it comes back from storage: marked valid, carrying the
    /// checksum of its value.
    pub open spec fn stored(self) -> EntryView {
        EntryView { valid: true, crc32: checksum(self.value), ..self }
    }
}

fn push_be16(buf: &mut Vec<u8>, x: u16)
    ensures
        final(buf)@ == old(buf)@ + be16(x),
{
    buf.push(#[verifier::truncate] ((x >> 8) as u8));
    buf.push(#[verifier::truncate] (x as u8));
    assert(buf@ =~= old(buf)@ + be16(x));
}

fn push_be32(buf: &mut Vec<u8>, x: u32)
    ensures
        final(buf)@ == old(buf)@ + be32(x),
{
    buf.push(#[verifier::truncate] ((x >> 24) as u8));
    buf.push(#[verifier::truncate] ((x >> 16) as u8));
    buf.push(#[verifier::truncate] ((x >> 8) as u8));
    buf.push(#[verifier::truncate] (x as u8));
    assert(buf@ =~= old(buf)@ + be32(x));
}

fn push_be64(buf: &mut Vec<u8>, x: u64)
    ensures
        final(buf)@ == old(buf)@ + be64(x),
{
    buf.push(#[verifier::truncate] ((x >> 56) as u8));
    buf.push(#[verifier::truncate] ((x >> 48) as u8));
    buf.push(#[verifier::truncate] ((x >> 40) as u8));
    buf.push(#[verifier::truncate] ((x >> 32) as u8));
    buf.push(#[verifier::truncate] ((x >> 24) as u8));
    buf.push(#[verifier::truncate] ((x >> 16) as u8));
    buf.push(#[verifier::truncate] ((x >> 8) as u8));
    buf.push(#[verifier::truncate] (x as u8));
    assert(buf@ =~= old(buf)@ + be64(x));
}

impl Entry {
    /// A valid record stamped with the current time.
    pub fn new(key: Vec<u8>, value: Vec<u8>, t: u16, mark: u16) -> (e: Entry)
        ensures
            e@ == fresh_entry(key@, value@, e.time_stamp, t, mark),
    {
        Entry::new_with_expire(key, value, time_now(), t, mark)
    }

    /// A valid record that carries `ddl` as its time stamp.
    pub fn new_with_expire(key: Vec<u8>, value: Vec<u8>, ddl: u64, t: u16, mark: u16) -> (e: Entry)
        ensures
            e@ == fresh_entry(key@, value@, ddl, t, mark),
    {
        let state: u16 = (t << 8) | mark;
        Entry {
            valid: true,
            crc32: 0,
            key_size: #[verifier::truncate] (key.len() as u32),
            value_size: #[verifier::truncate] (value.len() as u32),
            time_stamp: ddl,
            state,
            key,
            value,
        }
    }

    /// Decodes the fixed fields from the first 22 bytes of `buf`.
    pub fn decode_header(buf: Vec<u8>) -> (r: Option<Entry>)
        ensures
            match r {
                Some(e) => buf@.len() >= 22 && e@ == decoded_header(buf@),
                None => buf@.len() < 22,
            },
    {
        if buf.len() < ENTRY_HEADER_SIZE as usize {
            return None;
        }
        let key_size: u32 = buf[7] as u32 | ((buf[6] as u32) << 8) | ((buf[5] as u32) << 16) | ((buf[4] as u32)
            << 24);
        let value_size: u32 = buf[11] as u32 | ((buf[10] as u32) << 8) | ((buf[9] as u32) << 16) | ((
        buf[8] as u32) << 24);
        let state: u16 = buf[13] as u16 | ((buf[12] as u16) << 8);
        let time_stamp: u64 = buf[21] as u64 | ((buf[20] as u64) << 8) | ((buf[19] as u64) << 16) | ((
        buf[18] as u64) << 24) | ((buf[17] as u64) << 32) | ((buf[16] as u64) << 40) | ((buf[15] as u64)
            << 48) | ((buf[14] as u64) << 56);
        let crc32: u32 = buf[3] as u32 | ((buf[2] as u32) << 8) | ((buf[1] as u32) << 16) | ((buf[0] as u32)
            << 24);
        Some(
            Entry {
                valid: false,
                crc32,
                key_size,
                value_size,
                state,
                time_stamp,
                key: Vec::new(),
                value: Vec::new(),
            },
        )
    }

    /// The bytes of this record: header, key, value. Fails only for a
    /// record that is not marked valid.
    pub fn encode(&self) -> (r: Option<Vec<u8>>)
        ensures
            match r {
                Some(buf) => self.valid && buf@ == self@.encoding(),
                None => !self.valid,
            },
    {
        if !self.valid {
            return None;
        }
        let check_sum: u32 = #[verifier::truncate] (encode_vec_u8(self.value.as_slice(), 32) as u32);
        let mut buf: Vec<u8> = Vec::with_capacity(ENTRY_HEADER_SIZE as usize);
        push_be32(&mut buf, check_sum);
        push_be32(&mut buf, self.key_size);
        push_be32(&mut buf, self.value_size);
        push_be16(&mut buf, self.state);
        push_be64(&mut buf, self.time_stamp);
        buf.extend_from_slice(self.key.as_slice());
        buf.extend_from_slice(self.value.as_slice());
        assert(buf@ =~= self@.encoding());
        Some(buf)
    }

    /// The operation mark: the low byte of the state field.
    pub fn get_mark(&self) -> (mark: u16)
        ensures
            mark == self@.mark(),
    {
        self.state & 0xff
    }

    /// Encoded length in bytes.
    pub fn size(&self) -> (n: u32)
        requires
            self@.size() <= u32::MAX,
        ensures
            n == self@.size(),
    {
        ENTRY_HEADER_SIZE + self.key_size + self.value_size
    }

    /// Whether the header sizes are the lengths of key and value.
    pub fn sizes_match(&self) -> (r: bool)
        ensures
            r == self@.sizes_match(),
    {
        self.key.len() == self.key_size as usize && self.value.len() == self.value_size as usize
    }
}


proof fn lemma_be16_round_trip(x: u16)
    ensures
        be16(x).len() == 2,
        be16_at(be16(x), 0) == x,
{
    let b0 = (x >> 8) as u8;
    let b1 = x as u8;
    assert((b1 as u16) | ((b0 as u16) << 8) == x) by (bit_vector)
        requires
            b0 == (x >> 8) as u8,
            b1 == x as u8,
    ;
}

proof fn lemma_be32_round_trip(x: u32)
    ensures
        be32(x).len() == 4,
        be32_at(be32(x), 0) == x,
{
    let b0 = (x >> 24) as u8;
    let b1 = (x >> 16) as u8;
    let b2 = (x >> 8) as u8;
    let b3 = x as u8;
    assert((b3 as u32) | ((b2 as u32) << 8) | ((b1 as u32) << 16) | ((b0 as u32) << 24) == x)
        by (bit_vector)
        requires
            b0 == (x >> 24) as u8,
            b1 == (x >> 16) as u8,
            b2 == (x >> 8) as u8,
            b3 == x as u8,
    ;
}

proof fn lemma_be64_round_trip(x: u64)
    ensures
        be64(x).len() == 8,
        be64_at(be64(x), 0) == x,
{
    let b0 = (x >> 56) as u8;
    let b1 = (x >> 48) as u8;
    let b2 = (x >> 40) as u8;
    let b3 = (x >> 32) as u8;
    let b4 = (x >> 24) as u8;
    let b5 = (x >> 16) as u8;
    let b6 = (x >> 8) as u8;
    let b7 = x as u8;
    assert((b7 as u64) | ((b6 as u64) << 8) | ((b5 as u64) << 16) | ((b4 as u64) << 24) | ((b3 as u64)
        << 32) | ((b2 as u64) << 40) | ((b1 as u64) << 48) | ((b0 as u64) << 56) == x)
        by (bit_vector)
        requires
            b0 == (x >> 56) as u8,
            b1 == (x >> 48) as u8,
            b2 == (x >> 40) as u8,
            b3 == (x >> 32) as u8,
            b4 == (x >> 24) as u8,
            b5 == (x >> 16) as u8,
            b6 == (x >> 8) as u8,
            b7 == x as u8,
    ;
}

/// Decoding the header bytes of any five fields gives the same five fields
/// back, whatever follows the header.
pub proof fn header_round_trip(
    crc32: u32,
    key_size: u32,
    value_size: u32,
    state: u16,
    time_stamp: u64,
    rest: Seq<u8>,
)
    ensures
        header_bytes(crc32, key_size, value_size, state, time_stamp).len() == 22,
        decoded_header(header_bytes(crc32, key_size, value_size, state, time_stamp) + rest) == (EntryView {
            valid: false,
            crc32,
            key_size,
            value_size,
            state,
            time_stamp,
            key: Seq::empty(),
            value: Seq::empty(),
        }),
{
    let buf = header_bytes(crc32, key_size, value_size, state, time_stamp) + rest;
    lemma_be32_round_trip(crc32);
    lemma_be32_round_trip(key_size);
    lemma_be32_round_trip(value_size);
    lemma_be16_round_trip(state);
    lemma_be64_round_trip(time_stamp);
    assert(buf.subrange(0, 4) =~= be32(crc32));
    assert(buf.subrange(4, 8) =~= be32(key_size));
    assert(buf.subrange(8, 12) =~= be32(value_size));
    assert(buf.subrange(12, 14) =~= be16(state));
    assert(buf.subrange(14, 22) =~= be64(time_stamp));
    assert(be32_at(buf, 0) == be32_at(buf.subrange(0, 4), 0));
    assert(be32_at(buf, 4) == be32_at(buf.subrange(4, 8), 0));
    assert(be32_at(buf, 8) == be32_at(buf.subrange(8, 12), 0));
    assert(be16_at(buf, 12) == be16_at(buf.subrange(12, 14), 0));
    assert(be64_at(buf, 14) == be64_at(buf.subrange(14, 22), 0));
}

/// A mark that fits the low byte survives packing, whatever the reserved
/// type is.
pub proof fn mark_survives_packing(t: u16, mark: u16)
    requires
        mark <= 0xff,
    ensures
        mark_of(pack_state(t, mark)) == mark,
{
    assert(((t << 8) | mark) & 0xff == mark) by (bit_vector)
        requires
            mark <= 0xff,
    ;
}


} // verus!
