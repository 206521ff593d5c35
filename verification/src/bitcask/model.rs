//! The engine as mathematics: the index, what a record does to it, and what
//! each operation does to the engine as a whole.

use crate::bitcask::entry_type::EntryType;
use crate::bitcask::journal::perform_all;
use crate::bitcask::journal::Disk;
use crate::bitcask::journal::DiskOpView;
use crate::bitcask::storage::db_file::records_from;
use crate::bitcask::storage::db_file::DBFileView;
use crate::bitcask::storage::entry::fresh_entry;
use crate::bitcask::storage::entry::EntryView;
use vstd::prelude::*;
use vstd::utf8::decode_utf8;
use vstd::utf8::encode_utf8;
use vstd::utf8::valid_utf8;

verus! {

/// The length rule for a key and a value, in bytes: the key has between 1
/// and 100, the value at most 100.
pub open spec fn valid_key_value(key: Seq<u8>, value: Seq<u8>) -> bool {
    1 <= key.len() <= 100 && value.len() <= 100
}

/// The text that `bytes` encode, if they are well-formed UTF-8.
pub open spec fn text_of(bytes: Seq<u8>) -> Option<Seq<char>> {
    if valid_utf8(bytes) {
        Some(decode_utf8(bytes))
    } else {
        None
    }
}

/// The live keys with their values, and the keys that carry a deadline.
pub ghost struct IndexView {
    pub values: Map<Seq<char>, Seq<char>>,
    pub deadlines: Map<Seq<char>, u64>,
}

impl IndexView {
    /// No keys, no deadlines.
    pub open spec fn empty() -> IndexView {
        IndexView { values: Map::empty(), deadlines: Map::empty() }
    }

    /// Every key with a deadline has a value.
    pub open spec fn consistent(self) -> bool {
        self.deadlines.dom().subset_of(self.values.dom())
    }

    /// `key` gets `value`; its deadline, if it has one, stays.
    pub open spec fn set(self, key: Seq<char>, value: Seq<char>) -> IndexView {
        IndexView { values: self.values.insert(key, value), ..self }
    }

    /// `key` gets `value` and the deadline `deadline`.
    pub open spec fn set_with_expire(self, key: Seq<char>, value: Seq<char>, deadline: u64) -> IndexView {
        IndexView {
            values: self.values.insert(key, value),
            deadlines: self.deadlines.insert(key, deadline),
        }
    }

    /// `key` loses its value and its deadline.
    pub open spec fn delete(self, key: Seq<char>) -> IndexView {
        IndexView { values: self.values.remove(key), deadlines: self.deadlines.remove(key) }
    }

    /// `key` has a deadline and `now` is past it.
    pub open spec fn expired(self, key: Seq<char>, now: u64) -> bool {
        self.deadlines.contains_key(key) && now > self.deadlines[key]
    }

    /// The value of `key`, if it is live.
    pub open spec fn get(self, key: Seq<char>) -> Option<Seq<char>> {
        if self.values.contains_key(key) {
            Some(self.values[key])
        } else {
            None
        }
    }

    /// The index after replaying one record at time `now`.
    ///
    /// A record that clears wipes everything. Any other record is skipped
    /// unless it is marked valid, meets the length rule and holds text; a
    /// deadline is recorded only while it lies in the future.
    pub open spec fn apply(self, entry: EntryView, now: u64) -> IndexView {
        if !entry.valid {
            self
        } else {
            match EntryType::spec_from_mark(entry.mark()) {
                Some(EntryType::Clear) => IndexView::empty(),
                Some(EntryType::SetValue) => match (text_of(entry.key), text_of(entry.value)) {
                    (Some(key), Some(value)) if valid_key_value(entry.key, entry.value) => self.set(
                        key,
                        value,
                    ),
                    _ => self,
                },
                Some(EntryType::SetWithExpire) => match (text_of(entry.key), text_of(entry.value)) {
                    (Some(key), Some(value)) if valid_key_value(entry.key, entry.value) => if entry.time_stamp
                        > now {
                        self.set_with_expire(key, value, entry.time_stamp)
                    } else {
                        self.set(key, value)
                    },
                    _ => self,
                },
                Some(EntryType::Delete) => match text_of(entry.key) {
                    Some(key) if valid_key_value(entry.key, entry.value) => self.delete(key),
                    _ => self,
                },
                None => self,
            }
        }
    }

    /// The index after replaying `entries` in order.
    pub open spec fn apply_all(self, entries: Seq<EntryView>, now: u64) -> IndexView
        decreases entries.len(),
    {
        if entries.len() == 0 {
            self
        } else {
            self.apply(entries.first(), now).apply_all(entries.drop_first(), now)
        }
    }

    /// The index after replaying one segment: every record that a scan of
    /// its bytes finds, in order. A closed segment yields no record.
    pub open spec fn replay(self, file: DBFileView, now: u64) -> IndexView {
        if file.open {
            self.apply_all(records_from(file.bytes, 0), now)
        } else {
            self
        }
    }

    /// The index after replaying `files` one after the other.
    pub open spec fn replay_files(self, files: Seq<DBFileView>, now: u64) -> IndexView
        decreases files.len(),
    {
        if files.len() == 0 {
            self
        } else {
            self.replay_files(files.drop_last(), now).replay(files.last(), now)
        }
    }
}

/// The record that sets `key` to `value` at time `now`.
pub open spec fn set_record(key: Seq<char>, value: Seq<char>, now: u64) -> EntryView {
    fresh_entry(encode_utf8(key), encode_utf8(value), now, 0, EntryType::SetValue.spec_mark())
}

/// The record that sets `key` to `value` until `deadline`.
pub open spec fn expire_record(key: Seq<char>, value: Seq<char>, deadline: u64) -> EntryView {
    fresh_entry(encode_utf8(key), encode_utf8(value), deadline, 0, EntryType::SetWithExpire.spec_mark())
}

/// The record that deletes `key` at time `now`.
pub open spec fn delete_record(key: Seq<char>, now: u64) -> EntryView {
    fresh_entry(encode_utf8(key), Seq::empty(), now, 0, EntryType::Delete.spec_mark())
}

/// The record that clears the index at time `now`.
pub open spec fn clear_record(now: u64) -> EntryView {
    fresh_entry(Seq::empty(), Seq::empty(), now, 0, EntryType::Clear.spec_mark())
}

/// The files that hold `files`: each segment's bytes under its number.
pub open spec fn image(files: Seq<DBFileView>) -> Disk
    decreases files.len(),
{
    if files.len() == 0 {
        Map::empty()
    } else {
        image(files.drop_last()).insert(files.last().id, files.last().bytes)
    }
}

/// The steps that close `files`: one flush for each segment that is open,
/// in order.
pub open spec fn close_ops(files: Seq<DBFileView>) -> Seq<DiskOpView>
    decreases files.len(),
{
    if files.len() == 0 {
        Seq::empty()
    } else if files.last().open {
        close_ops(files.drop_last()).push(DiskOpView::Sync { id: files.last().id })
    } else {
        close_ops(files.drop_last())
    }
}

/// `files`, each one closed.
pub open spec fn closed_files(files: Seq<DBFileView>) -> Seq<DBFileView> {
    files.map_values(|file: DBFileView| DBFileView { open: false, ..file })
}

/// `files`, each one open, as they are after the directory is read again.
pub open spec fn reopened(files: Seq<DBFileView>) -> Seq<DBFileView> {
    files.map_values(|file: DBFileView| DBFileView { open: true, ..file })
}

/// The files are numbered in strictly ascending order.
pub open spec fn ascending(files: Seq<DBFileView>) -> bool {
    forall|j: int, k: int| 0 <= j < k < files.len() ==> (#[trigger] files[j]).id < (#[trigger] files[k]).id
}

/// Every file lies in directory `path`.
pub open spec fn all_in(files: Seq<DBFileView>, path: Seq<char>) -> bool {
    forall|j: int| 0 <= j < files.len() ==> (#[trigger] files[j]).path == path
}

/// Every file is open.
pub open spec fn all_open(files: Seq<DBFileView>) -> bool {
    forall|j: int| 0 <= j < files.len() ==> (#[trigger] files[j]).open
}

/// The mathematical content of the engine.
pub ghost struct KvView {
    /// The directory of the segments.
    pub dir_path: Seq<char>,
    /// The size beyond which the active segment is replaced.
    pub max_file_size: u32,
    /// The keys, values and deadlines.
    pub index: IndexView,
    /// The segment that takes new records.
    pub active: DBFileView,
    /// The older segments, in ascending order.
    pub archived: Seq<DBFileView>,
    /// The steps not yet handed out for the directory.
    pub journal: Seq<DiskOpView>,
    /// The directory as it is once every step handed out was performed.
    pub saved: Disk,
}

impl KvView {
    /// All segments in replay order: the archived ones, then the active one.
    pub open spec fn segments(self) -> Seq<DBFileView> {
        self.archived.push(self.active)
    }

    /// The index is consistent; the segments lie in the engine's directory
    /// and are numbered in ascending order, the active one last; and the
    /// steps of the journal, performed on the directory as saved, make the
    /// files hold exactly what the segments hold.
    pub open spec fn consistent(self) -> bool {
        &&& self.index.consistent()
        &&& all_in(self.segments(), self.dir_path)
        &&& ascending(self.segments())
        &&& perform_all(self.saved, self.journal) == image(self.segments())
    }

    /// The index that an engine opened at time `now` on the segments as
    /// they are would start with.
    pub open spec fn replayed(self, now: u64) -> IndexView {
        IndexView::empty().replay_files(reopened(self.segments()), now)
    }

    /// The active segment has outgrown the configured size, so the next
    /// record goes to a new segment.
    pub open spec fn needs_rotation(self) -> bool {
        self.active.bytes.len() > self.max_file_size
    }

    /// Whether `entry` can be appended to the log.
    pub open spec fn can_store(self, entry: EntryView) -> bool {
        &&& self.active.open
        &&& entry.valid
        &&& entry.sizes_match()
        &&& if self.needs_rotation() {
            self.active.id < u32::MAX && entry.size() <= u32::MAX
        } else {
            self.active.bytes.len() + entry.size() <= u32::MAX
        }
    }

    /// The engine after `entry` is appended to the log: to the active
    /// segment, or, when that one has outgrown the configured size, to a new
    /// active segment with the next number, the old one closed and archived.
    /// The journal gains the steps that do the same to the files.
    pub open spec fn stored(self, entry: EntryView) -> KvView {
        if self.needs_rotation() {
            let next = (self.active.id + 1) as u32;
            KvView {
                active: DBFileView { id: next, path: self.dir_path, bytes: entry.encoding(), open: true },
                archived: self.archived.push(DBFileView { open: false, ..self.active }),
                journal: self.journal.push(DiskOpView::Sync { id: self.active.id }).push(
                    DiskOpView::Create { id: next },
                ).push(DiskOpView::Append { id: next, bytes: entry.encoding() }),
                ..self
            }
        } else {
            KvView {
                active: DBFileView { bytes: self.active.bytes + entry.encoding(), ..self.active },
                journal: self.journal.push(
                    DiskOpView::Append { id: self.active.id, bytes: entry.encoding() },
                ),
                ..self
            }
        }
    }

    /// What reading `key` at time `now` returns, and the engine afterwards.
    ///
    /// A key that fails the length rule reads as absent. A key whose
    /// deadline has passed reads as absent and leaves the index, with its
    /// deadline; the log is not touched.
    pub open spec fn spec_get(self, key: Seq<char>, now: u64) -> (Option<Seq<char>>, KvView) {
        if !valid_key_value(encode_utf8(key), Seq::empty()) {
            (None, self)
        } else if self.index.expired(key, now) {
            (None, KvView { index: self.index.delete(key), ..self })
        } else {
            (self.index.get(key), self)
        }
    }

    /// Whether setting `key` to `value` at time `now` succeeds, and the
    /// engine afterwards.
    pub open spec fn spec_set(self, key: Seq<char>, value: Seq<char>, now: u64) -> (bool, KvView) {
        let record = set_record(key, value, now);
        if valid_key_value(encode_utf8(key), encode_utf8(value)) && self.can_store(record) {
            (true, KvView { index: self.index.set(key, value), ..self.stored(record) })
        } else {
            (false, self)
        }
    }

    /// Whether setting `key` to `value` until `deadline` succeeds, and the
    /// engine afterwards.
    pub open spec fn spec_set_with_expire(self, key: Seq<char>, value: Seq<char>, deadline: u64) -> (
        bool,
        KvView,
    ) {
        let record = expire_record(key, value, deadline);
        if valid_key_value(encode_utf8(key), encode_utf8(value)) && self.can_store(record) {
            (
                true,
                KvView { index: self.index.set_with_expire(key, value, deadline), ..self.stored(record) },
            )
        } else {
            (false, self)
        }
    }

    /// Whether deleting `key` at time `now` succeeds, and the engine
    /// afterwards.
    pub open spec fn spec_delete(self, key: Seq<char>, now: u64) -> (bool, KvView) {
        let record = delete_record(key, now);
        if valid_key_value(encode_utf8(key), Seq::empty()) && self.can_store(record) {
            (true, KvView { index: self.index.delete(key), ..self.stored(record) })
        } else {
            (false, self)
        }
    }

    /// Whether clearing at time `now` succeeds, and the engine afterwards.
    pub open spec fn spec_clear(self, now: u64) -> (bool, KvView) {
        let record = clear_record(now);
        if self.can_store(record) {
            (true, KvView { index: IndexView::empty(), ..self.stored(record) })
        } else {
            (false, self)
        }
    }

    /// The engine with every segment closed; the journal gains a flush for
    /// each segment that was open.
    pub open spec fn spec_close(self) -> KvView {
        KvView {
            active: DBFileView { open: false, ..self.active },
            archived: closed_files(self.archived),
            journal: self.journal + close_ops(self.segments()),
            ..self
        }
    }

    /// The engine after its journal was handed out: the journal is empty,
    /// and the directory counts as holding what the segments hold.
    pub open spec fn spec_take_journal(self) -> KvView {
        KvView { journal: Seq::empty(), saved: image(self.segments()), ..self }
    }

    /// The engine's segments are exactly `segments`, all open and in the
    /// engine's directory, with nothing left to do to the files; on no
    /// segments at all, a single empty segment numbered 1, whose file is
    /// still to be created.
    pub open spec fn holds(self, segments: Seq<(u32, Vec<u8>)>) -> bool {
        if segments.len() == 0 {
            &&& self.segments() == seq![
                DBFileView { id: 1, path: self.dir_path, bytes: Seq::empty(), open: true },
            ]
            &&& self.journal == seq![DiskOpView::Create { id: 1 }]
            &&& self.saved == Map::<u32, Seq<u8>>::empty()
        } else {
            &&& self.segments().len() == segments.len()
            &&& all_open(self.segments())
            &&& covers(self.segments(), segments, 0)
            &&& self.journal == Seq::<DiskOpView>::empty()
            &&& self.saved == image(self.segments())
        }
    }
}

/// Whether the engine can open on `segments`, each a segment number with the
/// bytes of that segment: no number occurs twice and no segment is longer
/// than a 32-bit offset can track.
pub open spec fn loadable(segments: Seq<(u32, Vec<u8>)>) -> bool {
    loadable_from(segments, 0)
}

/// [`loadable`], of the segments from position `from` on.
pub open spec fn loadable_from(segments: Seq<(u32, Vec<u8>)>, from: int) -> bool {
    &&& forall|i: int| from <= i < segments.len() ==> (#[trigger] segments[i]).1@.len() <= u32::MAX
    &&& forall|i: int, j: int|
        from <= i < j < segments.len() ==> (#[trigger] segments[i]).0 != (#[trigger] segments[j]).0
}

/// `file` is the segment `segment`: same number, same bytes.
pub open spec fn is_segment(file: DBFileView, segment: (u32, Vec<u8>)) -> bool {
    file.id == segment.0 && file.bytes == segment.1@
}

/// One of `files` is the segment `segment`.
pub open spec fn has_file(files: Seq<DBFileView>, segment: (u32, Vec<u8>)) -> bool {
    exists|j: int| 0 <= j < files.len() && is_segment(#[trigger] files[j], segment)
}

/// A segment from position `from` on has the number `id`.
pub open spec fn has_number(segments: Seq<(u32, Vec<u8>)>, from: int, id: u32) -> bool {
    exists|i: int| from <= i < segments.len() && (#[trigger] segments[i]).0 == id
}

/// Every segment from position `from` on is one of `files`, number and
/// bytes.
pub open spec fn covers(files: Seq<DBFileView>, segments: Seq<(u32, Vec<u8>)>, from: int) -> bool {
    forall|i: int| from <= i < segments.len() ==> has_file(files, #[trigger] segments[i])
}

/// Every one of `files` has the number of a segment from position `from` on.
pub open spec fn drawn_from(files: Seq<DBFileView>, segments: Seq<(u32, Vec<u8>)>, from: int) -> bool {
    forall|j: int| 0 <= j < files.len() ==> has_number(segments, from, (#[trigger] files[j]).id)
}

} // verus!
