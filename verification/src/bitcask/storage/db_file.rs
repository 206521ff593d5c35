//! One segment of the log: reading the record at an offset, appending a
//! record, and what a scan of the bytes finds.

use crate::bitcask::storage::entry::checksum;
use crate::bitcask::storage::entry::decoded_header;
use crate::bitcask::storage::entry::header_bytes;
use crate::bitcask::storage::entry::header_round_trip;
use crate::bitcask::storage::entry::Entry;
use crate::bitcask::storage::entry::EntryView;
use crate::bitcask::storage::entry::ENTRY_HEADER_SIZE;
use crate::bitcask::utils::hash_routine::encode_vec_u8;
use vstd::prelude::*;
use vstd::slice::slice_subrange;
use vstd::slice::slice_to_vec;

verus! {

/// One numbered segment of the log, held as the bytes it contains.
///
/// A segment grows only by whole records appended at its end. Once closed it
/// refuses every operation.
pub struct DBFile {
    id: u32,
    path: String,
    offset: u32,
    data: Vec<u8>,
    open: bool,
}

/// The mathematical content of a [`DBFile`].
pub ghost struct DBFileView {
    pub id: u32,
    pub path: Seq<char>,
    pub bytes: Seq<u8>,
    pub open: bool,
}

impl View for DBFile {
    type V = DBFileView;

    closed spec fn view(&self) -> DBFileView {
        DBFileView { id: self.id, path: self.path@, bytes: self.data@, open: self.open }
    }
}

/// The record that starts at `offset` in `bytes`: present when the header,
/// the key and the value all lie within `bytes` and the stored checksum is
/// that of the value.
pub open spec fn record_at(bytes: Seq<u8>, offset: int) -> Option<EntryView> {
    if offset < 0 || offset + 22 > bytes.len() {
        None
    } else {
        let header = decoded_header(bytes.subrange(offset, offset + 22));
        let key_end = offset + 22 + header.key_size;
        let value_end = key_end + header.value_size;
        if value_end > bytes.len() {
            None
        } else {
            let key = bytes.subrange(offset + 22, key_end);
            let value = bytes.subrange(key_end, value_end);
            if checksum(value) != header.crc32 {
                None
            } else {
                Some(EntryView { valid: true, key, value, ..header })
            }
        }
    }
}

/// The records met when reading `bytes` from `offset` on, each one starting
/// where the one before it ends, up to the first place that holds no record.
pub open spec fn records_from(bytes: Seq<u8>, offset: int) -> Seq<EntryView>
    decreases bytes.len() - offset,
{
    match record_at(bytes, offset) {
        Some(e) => seq![e] + records_from(bytes, offset + e.size()),
        None => Seq::empty(),
    }
}

/// The offset at which reading `bytes` from `offset` on stops.
pub open spec fn scan_end(bytes: Seq<u8>, offset: int) -> int
    decreases bytes.len() - offset,
{
    match record_at(bytes, offset) {
        Some(e) => scan_end(bytes, offset + e.size()),
        None => offset,
    }
}

/// Every byte of `bytes` belongs to a record that a scan from the start
/// reaches.
pub open spec fn is_clean_log(bytes: Seq<u8>) -> bool {
    scan_end(bytes, 0) == bytes.len()
}

impl DBFile {
    /// The tracked write offset equals the length of the contents.
    pub closed spec fn wf(&self) -> bool {
        self.offset as int == self.data@.len()
    }

    /// Whether `entry` can be appended: the segment is open, the record is
    /// marked valid, its header sizes are those of its key and value, and the
    /// grown segment still has a 32-bit length.
    pub open spec fn accepts(&self, entry: EntryView) -> bool {
        &&& self@.open
        &&& entry.valid
        &&& entry.sizes_match()
        &&& self@.bytes.len() + entry.size() <= u32::MAX
    }

    /// Opens segment `file_id` of directory `path` on its current contents.
    /// Fails when the contents are longer than a 32-bit offset can track.
    pub fn new(path: String, file_id: u32, contents: Vec<u8>) -> (r: Option<DBFile>)
        ensures
            match r {
                Some(f) => contents@.len() <= u32::MAX && f.wf() && f@ == (DBFileView {
                    id: file_id,
                    path: path@,
                    bytes: contents@,
                    open: true,
                }),
                None => contents@.len() > u32::MAX,
            },
    {
        if contents.len() > u32::MAX as usize {
            return None;
        }
        Some(DBFile { id: file_id, path, offset: contents.len() as u32, data: contents, open: true })
    }

    /// The record that starts at `offset`, or nothing when the segment is
    /// closed or no whole, intact record starts there.
    pub fn read(&self, offset: u32) -> (r: Option<Entry>)
        requires
            self.wf(),
        ensures
            match r {
                Some(e) => self@.open && record_at(self@.bytes, offset as int) == Some(e@),
                None => !self@.open || record_at(self@.bytes, offset as int) is None,
            },
    {
        let buf = match self.read_buf(offset, ENTRY_HEADER_SIZE) {
            Some(buf) => buf,
            None => { return None; },
        };
        let header = match Entry::decode_header(buf) {
            Some(header) => header,
            None => { return None; },
        };
        let key_offset: u32 = offset + ENTRY_HEADER_SIZE;
        let key = match self.read_buf(key_offset, header.key_size) {
            Some(key) => key,
            None => { return None; },
        };
        let value_offset: u32 = key_offset + header.key_size;
        let value = match self.read_buf(value_offset, header.value_size) {
            Some(value) => value,
            None => { return None; },
        };
        let check_sum: u32 = #[verifier::truncate] (encode_vec_u8(value.as_slice(), 32) as u32);
        if check_sum != header.crc32 {
            return None;
        }
        Some(
            Entry {
                valid: true,
                crc32: header.crc32,
                key_size: header.key_size,
                value_size: header.value_size,
                state: header.state,
                time_stamp: header.time_stamp,
                key,
                value,
            },
        )
    }

    /// Appends the encoding of `entry` and advances the write offset by its
    /// length. Refuses, changing nothing, unless the segment
    /// [`accepts`](DBFile::accepts) the record.
    pub fn write(&mut self, entry: Entry) -> (ok: bool)
        requires
            old(self).wf(),
        ensures
            final(self).wf(),
            ok == old(self).accepts(entry@),
            ok ==> final(self)@ == (DBFileView {
                bytes: old(self)@.bytes + entry@.encoding(),
                ..old(self)@
            }),
            !ok ==> final(self)@ == old(self)@,
    {
        if !self.open {
            return false;
        }
        if !entry.valid {
            return false;
        }
        if entry.key.len() != entry.key_size as usize || entry.value.len() != entry.value_size as usize {
            return false;
        }
        let grown: u64 = self.offset as u64 + ENTRY_HEADER_SIZE as u64 + entry.key_size as u64
            + entry.value_size as u64;
        if grown > u32::MAX as u64 {
            return false;
        }
        let buf = match entry.encode() {
            Some(buf) => buf,
            None => { return false; },
        };
        self.data.extend_from_slice(buf.as_slice());
        self.offset = grown as u32;
        assert(self.data@ =~= old(self).data@ + entry@.encoding());
        true
    }

    /// Closes the segment. Fails when it is closed already.
    pub fn close(&mut self) -> (ok: bool)
        ensures
            ok == old(self)@.open,
            final(self)@ == (DBFileView { open: false, ..old(self)@ }),
            old(self).wf() ==> final(self).wf(),
    {
        if !self.open {
            return false;
        }
        self.open = false;
        true
    }

    /// The `len` bytes that start at `offset`, or nothing when the segment is
    /// closed or does not hold all of them.
    fn read_buf(&self, offset: u32, len: u32) -> (r: Option<Vec<u8>>)
        ensures
            match r {
                Some(buf) => self@.open && offset + len <= self@.bytes.len() && buf@
                    == self@.bytes.subrange(offset as int, offset + len),
                None => !self@.open || offset + len > self@.bytes.len(),
            },
    {
        if !self.open {
            return None;
        }
        let end: u64 = offset as u64 + len as u64;
        if end > self.data.len() as u64 {
            return None;
        }
        Some(slice_to_vec(slice_subrange(self.data.as_slice(), offset as usize, end as usize)))
    }

    /// The segment's number.
    pub fn id(&self) -> (id: u32)
        ensures
            id == self@.id,
    {
        self.id
    }

    /// The directory the segment belongs to.
    pub fn path(&self) -> (path: &String)
        ensures
            path@ == self@.path,
    {
        &self.path
    }

    /// The write offset: the length of the contents.
    pub fn offset(&self) -> (offset: u32)
        requires
            self.wf(),
        ensures
            offset == self@.bytes.len(),
    {
        self.offset
    }

    /// Whether the segment is still open.
    pub fn is_open(&self) -> (open: bool)
        ensures
            open == self@.open,
    {
        self.open
    }

    /// The bytes the segment holds.
    pub fn bytes(&self) -> (bytes: &Vec<u8>)
        ensures
            bytes@ == self@.bytes,
    {
        &self.data
    }
}


/// A stored record reads back with every field as it was written: at the
/// place where the encoding of `entry` starts, whatever bytes come before
/// and after it, stands `entry` itself, marked valid and carrying the
/// checksum of its value.
pub proof fn record_round_trip(prefix: Seq<u8>, entry: EntryView, suffix: Seq<u8>)
    requires
        entry.sizes_match(),
    ensures
        entry.encoding().len() == entry.size(),
        record_at(prefix + entry.encoding() + suffix, prefix.len() as int) == Some(entry.stored()),
{
    let header = header_bytes(
        checksum(entry.value),
        entry.key_size,
        entry.value_size,
        entry.state,
        entry.time_stamp,
    );
    let bytes = prefix + entry.encoding() + suffix;
    let start = prefix.len() as int;
    header_round_trip(
        checksum(entry.value),
        entry.key_size,
        entry.value_size,
        entry.state,
        entry.time_stamp,
        Seq::empty(),
    );
    assert(header + Seq::<u8>::empty() =~= header);
    assert(bytes.subrange(start, start + 22) =~= header);
    assert(bytes.subrange(start + 22, start + 22 + entry.key_size) =~= entry.key);
    assert(bytes.subrange(start + 22 + entry.key_size, start + entry.size()) =~= entry.value);
}

/// A record that reads at `offset` still reads there, unchanged, after
/// bytes are appended.
pub proof fn record_survives_append(bytes: Seq<u8>, suffix: Seq<u8>, offset: int)
    requires
        record_at(bytes, offset) is Some,
    ensures
        record_at(bytes + suffix, offset) == record_at(bytes, offset),
{
    let longer = bytes + suffix;
    assert(longer.subrange(offset, offset + 22) =~= bytes.subrange(offset, offset + 22));
    let header = decoded_header(bytes.subrange(offset, offset + 22));
    let key_end = offset + 22 + header.key_size;
    let value_end = key_end + header.value_size;
    assert(longer.subrange(offset + 22, key_end) =~= bytes.subrange(offset + 22, key_end));
    assert(longer.subrange(key_end, value_end) =~= bytes.subrange(key_end, value_end));
}

/// A record cut short is no record: where only the first `n` bytes of an
/// encoding stand at the end of the bytes, nothing reads.
pub proof fn truncated_record_is_none(prefix: Seq<u8>, entry: EntryView, n: int)
    requires
        entry.sizes_match(),
        0 <= n < entry.size(),
    ensures
        record_at(prefix + entry.encoding().take(n), prefix.len() as int) is None,
{
    let header = header_bytes(
        checksum(entry.value),
        entry.key_size,
        entry.value_size,
        entry.state,
        entry.time_stamp,
    );
    let bytes = prefix + entry.encoding().take(n);
    let start = prefix.len() as int;
    header_round_trip(
        checksum(entry.value),
        entry.key_size,
        entry.value_size,
        entry.state,
        entry.time_stamp,
        Seq::empty(),
    );
    if n >= 22 {
        assert(header + Seq::<u8>::empty() =~= header);
        assert(bytes.subrange(start, start + 22) =~= header);
    }
}

/// Appending a record to a clean log adds exactly that record to what a
/// scan finds, after all the records found before, and leaves the log clean.
pub proof fn append_keeps_records(bytes: Seq<u8>, entry: EntryView)
    requires
        is_clean_log(bytes),
        entry.sizes_match(),
    ensures
        records_from(bytes + entry.encoding(), 0) == records_from(bytes, 0).push(entry.stored()),
        is_clean_log(bytes + entry.encoding()),
{
    lemma_scan_append(bytes, 0, entry);
    record_round_trip(bytes, entry, Seq::empty());
}

/// A record cut short at the end of a clean log is silently dropped: a scan
/// finds the records of the clean log and nothing more.
pub proof fn truncated_tail_is_dropped(bytes: Seq<u8>, entry: EntryView, n: int)
    requires
        is_clean_log(bytes),
        entry.sizes_match(),
        0 <= n < entry.size(),
    ensures
        records_from(bytes + entry.encoding().take(n), 0) == records_from(bytes, 0),
{
    lemma_scan_truncated(bytes, 0, entry, n);
}

/// The log that holds exactly `entries`, one encoding after the other.
pub open spec fn log_of(entries: Seq<EntryView>) -> Seq<u8>
    decreases entries.len(),
{
    if entries.len() == 0 {
        Seq::empty()
    } else {
        log_of(entries.drop_last()) + entries.last().encoding()
    }
}

/// A log written record by record is clean, and a scan finds the records in
/// the order in which they were written.
pub proof fn log_of_reads_back(entries: Seq<EntryView>)
    requires
        forall|i: int| 0 <= i < entries.len() ==> (#[trigger] entries[i]).sizes_match(),
    ensures
        is_clean_log(log_of(entries)),
        records_from(log_of(entries), 0) == entries.map_values(|e: EntryView| e.stored()),
    decreases entries.len(),
{
    if entries.len() == 0 {
        assert(records_from(log_of(entries), 0) =~= entries.map_values(|e: EntryView| e.stored()));
    } else {
        log_of_reads_back(entries.drop_last());
        append_keeps_records(log_of(entries.drop_last()), entries.last());
        assert(records_from(log_of(entries), 0) =~= entries.map_values(|e: EntryView| e.stored()));
    }
}

proof fn lemma_scan_append(bytes: Seq<u8>, offset: int, entry: EntryView)
    requires
        0 <= offset <= bytes.len(),
        scan_end(bytes, offset) == bytes.len(),
        entry.sizes_match(),
    ensures
        records_from(bytes + entry.encoding(), offset) == records_from(bytes, offset).push(
            entry.stored(),
        ),
        scan_end(bytes + entry.encoding(), offset) == bytes.len() + entry.size(),
    decreases bytes.len() - offset,
{
    let longer = bytes + entry.encoding();
    record_round_trip(bytes, entry, Seq::empty());
    assert(bytes + entry.encoding() + Seq::<u8>::empty() =~= longer);
    match record_at(bytes, offset) {
        Some(e) => {
            record_survives_append(bytes, entry.encoding(), offset);
            lemma_scan_append(bytes, offset + e.size(), entry);
            assert(records_from(longer, offset) =~= records_from(bytes, offset).push(entry.stored()));
        },
        None => {
            assert(offset == bytes.len());
            assert(record_at(longer, longer.len() as int) is None);
            assert(records_from(longer, longer.len() as int) =~= Seq::<EntryView>::empty());
            assert(scan_end(longer, longer.len() as int) == longer.len());
            assert(entry.stored().size() == entry.size());
            assert(scan_end(longer, offset) == scan_end(longer, offset + entry.size()));
            assert(records_from(longer, offset) =~= records_from(bytes, offset).push(entry.stored()));
        },
    }
}

proof fn lemma_scan_truncated(bytes: Seq<u8>, offset: int, entry: EntryView, n: int)
    requires
        0 <= offset <= bytes.len(),
        scan_end(bytes, offset) == bytes.len(),
        entry.sizes_match(),
        0 <= n < entry.size(),
    ensures
        records_from(bytes + entry.encoding().take(n), offset) == records_from(bytes, offset),
    decreases bytes.len() - offset,
{
    let longer = bytes + entry.encoding().take(n);
    match record_at(bytes, offset) {
        Some(e) => {
            record_survives_append(bytes, entry.encoding().take(n), offset);
            lemma_scan_truncated(bytes, offset + e.size(), entry, n);
        },
        None => {
            truncated_record_is_none(bytes, entry, n);
        },
    }
}

} // verus!
