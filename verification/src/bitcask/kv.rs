//! The engine: opening on the segments of a directory, replaying them into
//! the index, and the live operations that append to the log.

use crate::bitcask::config::Config;
use crate::bitcask::ds::hash;
use crate::bitcask::entry_type::EntryType;
use crate::bitcask::journal::op_views;
use crate::bitcask::journal::perform;
use crate::bitcask::journal::perform_all;
use crate::bitcask::journal::Disk;
use crate::bitcask::journal::DiskOp;
use crate::bitcask::journal::DiskOpView;
use crate::bitcask::loading::duplicate_is_not_loadable;
use crate::bitcask::loading::fits_at;
use crate::bitcask::loading::insert_covers;
use crate::bitcask::loading::insert_is_drawn_from;
use crate::bitcask::loading::insert_keeps_ascending;
use crate::bitcask::loading::insert_keeps_open;
use crate::bitcask::loading::one_more_is_loadable;
use crate::bitcask::model::all_in;
use crate::bitcask::model::all_open;
use crate::bitcask::model::ascending;
use crate::bitcask::model::close_ops;
use crate::bitcask::model::closed_files;
use crate::bitcask::model::covers;
use crate::bitcask::model::drawn_from;
use crate::bitcask::model::image;
use crate::bitcask::model::loadable;
use crate::bitcask::model::loadable_from;
use crate::bitcask::model::valid_key_value;
use crate::bitcask::model::IndexView;
use crate::bitcask::model::KvView;
use crate::bitcask::segment_name::contains_data_mark;
use crate::bitcask::segment_name::parse_stem;
use crate::bitcask::segment_name::segment_ids;
use crate::bitcask::segment_name::stem_len;
use crate::bitcask::storage::db_file::records_from;
use crate::bitcask::storage::db_file::DBFile;
use crate::bitcask::storage::db_file::DBFileView;
use crate::bitcask::storage::entry::Entry;
use crate::bitcask::theorems::closed_is_consistent;
use crate::bitcask::theorems::replay_keeps_consistent;
use crate::bitcask::theorems::stored_is_consistent;
use crate::bitcask::utils::time_routine::time_now;
use vstd::hash_map::StringHashMap;
use vstd::prelude::*;
use vstd::slice::slice_to_vec;
use vstd::utf8::decode_utf8;
use vstd::utf8::encode_utf8;
use vstd::utf8::valid_utf8;

verus! {

/// Whether the UTF-8 bytes of `key` and `value` meet the length rule.
pub fn check_key_value(key: &String, value: &String) -> (ok: bool)
    ensures
        ok == valid_key_value(encode_utf8(key@), encode_utf8(value@)),
{
    let key_len = key.as_str().as_bytes().len();
    if key_len == 0 || key_len > 100 {
        return false;
    }
    value.as_str().as_bytes().len() <= 100
}

/// Whether `key` and `value` meet the length rule.
pub fn check_key_value_vec(key: &Vec<u8>, value: &Vec<u8>) -> (ok: bool)
    ensures
        ok == valid_key_value(key@, value@),
{
    if key.len() == 0 || key.len() > 100 {
        return false;
    }
    value.len() <= 100
}

/// The texts of `names`, in order.
pub open spec fn texts(names: Seq<String>) -> Seq<Seq<char>> {
    names.map_values(|name: String| name@)
}

/// Finds the segments among the file names of a directory and returns
/// their numbers, in the order of the names. Fails when a name that marks a
/// segment does not start with a segment number.
pub fn build(names: &Vec<String>) -> (r: Option<Vec<u32>>)
    ensures
        match r {
            Some(ids) => segment_ids(texts(names@)) == Some(ids@),
            None => segment_ids(texts(names@)) is None,
        },
{
    let mut ids: Vec<u32> = Vec::new();
    let mut i: usize = 0;
    while i < names.len()
        invariant
            i <= names@.len(),
            segment_ids(texts(names@).take(i as int)) == Some(ids@),
        decreases names@.len() - i,
    {
        let name = names[i].as_str();
        proof {
            let seen = texts(names@).take(i + 1);
            assert(seen.drop_last() =~= texts(names@).take(i as int));
            assert(seen.last() == name@);
        }
        if contains_data_mark(name) {
            match parse_stem(name, stem_len(name)) {
                Some(id) => {
                    ids.push(id);
                },
                None => {
                    proof {
                        lemma_segment_ids_fail(texts(names@), i + 1);
                    }
                    return None;
                },
            }
        }
        i = i + 1;
    }
    assert(texts(names@).take(i as int) =~= texts(names@));
    Some(ids)
}

/// Once the names up to some point are unreadable, so are all the names.
proof fn lemma_segment_ids_fail(names: Seq<Seq<char>>, n: int)
    requires
        0 <= n <= names.len(),
        segment_ids(names.take(n)) is None,
    ensures
        segment_ids(names) is None,
    decreases names.len() - n,
{
    if n < names.len() {
        assert(names.take(n + 1).drop_last() =~= names.take(n));
        lemma_segment_ids_fail(names, n + 1);
    } else {
        assert(names.take(n) =~= names);
    }
}

/// Decodes `bytes` as UTF-8 text.
///
/// Trusted: calls `String::from_utf8`, which succeeds exactly on well-formed
/// UTF-8 and then holds the characters that the bytes encode.
#[verifier::external_body]
fn text_from_utf8(bytes: Vec<u8>) -> (r: Option<String>)
    ensures
        match r {
            Some(text) => valid_utf8(bytes@) && text@ == decode_utf8(bytes@),
            None => !valid_utf8(bytes@),
        },
{
    String::from_utf8(bytes).ok()
}

/// The UTF-8 bytes of `text`.
fn text_bytes(text: &String) -> (bytes: Vec<u8>)
    ensures
        bytes@ == encode_utf8(text@),
{
    slice_to_vec(text.as_str().as_bytes())
}

/// The views of `files`, in order.
pub open spec fn views(files: Seq<DBFile>) -> Seq<DBFileView> {
    files.map_values(|file: DBFile| file@)
}

/// Replays one record into the index at time `now`.
fn apply_entry(hash_index: &mut hash::Hash, expires: &mut StringHashMap<u64>, entry: Entry, now: u64)
    ensures
        (IndexView { values: final(hash_index)@, deadlines: final(expires)@ }) == (IndexView {
            values: old(hash_index)@,
            deadlines: old(expires)@,
        }).apply(entry@, now),
{
    if !entry.valid {
        return ;
    }
    let kind = match EntryType::from_mark(entry.get_mark()) {
        Some(kind) => kind,
        None => { return ; },
    };
    if kind == EntryType::Clear {
        hash_index.clear();
        expires.clear();
        return ;
    }
    if !check_key_value_vec(&entry.key, &entry.value) {
        return ;
    }
    let Entry { key, value, time_stamp, .. } = entry;
    let key = match text_from_utf8(key) {
        Some(key) => key,
        None => { return ; },
    };
    match kind {
        EntryType::SetValue => {
            let value = match text_from_utf8(value) {
                Some(value) => value,
                None => { return ; },
            };
            hash_index.set(key, value);
        },
        EntryType::SetWithExpire => {
            let value = match text_from_utf8(value) {
                Some(value) => value,
                None => { return ; },
            };
            if time_stamp > now {
                expires.insert(key.clone(), time_stamp);
            }
            hash_index.set(key, value);
        },
        EntryType::Delete => {
            expires.remove(key.as_str());
            hash_index.delete(key);
        },
        EntryType::Clear => {},
    }
}

/// Replays every record of `file` into the index at time `now`.
fn replay_file(file: &DBFile, hash_index: &mut hash::Hash, expires: &mut StringHashMap<u64>, now: u64)
    requires
        file.wf(),
    ensures
        (IndexView { values: final(hash_index)@, deadlines: final(expires)@ }) == (IndexView {
            values: old(hash_index)@,
            deadlines: old(expires)@,
        }).replay(file@, now),
{
    let ghost start = IndexView { values: old(hash_index)@, deadlines: old(expires)@ };
    let length = file.offset();
    let mut offset: u32 = 0;
    loop
        invariant
            file.wf(),
            length == file@.bytes.len(),
            offset <= length,
            file@.open ==> (IndexView { values: hash_index@, deadlines: expires@ }).apply_all(
                records_from(file@.bytes, offset as int),
                now,
            ) == start.apply_all(records_from(file@.bytes, 0), now),
            !file@.open ==> (IndexView { values: hash_index@, deadlines: expires@ }) == start,
        ensures
            (IndexView { values: hash_index@, deadlines: expires@ }) == start.replay(file@, now),
        decreases length - offset,
    {
        let entry = match file.read(offset) {
            Some(entry) => entry,
            None => {
                assert(file@.open ==> records_from(file@.bytes, offset as int) =~= Seq::empty());
                break ;
            },
        };
        proof {
            let rest = records_from(file@.bytes, offset + entry@.size());
            assert(records_from(file@.bytes, offset as int) == seq![entry@] + rest);
            assert((seq![entry@] + rest).drop_first() =~= rest);
        }
        offset = offset + entry.size();
        apply_entry(hash_index, expires, entry, now);
    }
}

/// The engine: the index, the active segment, the archived segments, and
/// the journal of what is still to be done to the files.
#[allow(non_camel_case_types)]
pub struct kv {
    config: Config,
    hash_index: hash::Hash,
    expires: StringHashMap<u64>,
    active_file: DBFile,
    arch_files: Vec<DBFile>,
    journal: Vec<DiskOp>,
    saved: Ghost<Disk>,
}

impl View for kv {
    type V = KvView;

    closed spec fn view(&self) -> KvView {
        KvView {
            dir_path: self.config.dir_path@,
            max_file_size: self.config.max_file_size,
            index: IndexView { values: self.hash_index@, deadlines: self.expires@ },
            active: self.active_file@,
            archived: views(self.arch_files@),
            journal: op_views(self.journal@),
            saved: self.saved@,
        }
    }
}

impl kv {
    /// The engine's invariant: every segment tracks its length, and the
    /// content is [`consistent`](KvView::consistent).
    pub closed spec fn wf(&self) -> bool {
        &&& self.active_file.wf()
        &&& forall|i: int| 0 <= i < self.arch_files@.len() ==> (#[trigger] self.arch_files@[i]).wf()
        &&& self@.consistent()
    }

    /// A well-formed engine has consistent content.
    pub proof fn wf_is_consistent(&self)
        requires
            self.wf(),
        ensures
            self@.consistent(),
    {
    }

    /// The configuration the engine was opened with.
    pub fn config(&self) -> (config: &Config)
        ensures
            config.dir_path@ == self@.dir_path,
            config.max_file_size == self@.max_file_size,
    {
        &self.config
    }

    /// The segment that takes new records.
    pub fn active_file(&self) -> (file: &DBFile)
        requires
            self.wf(),
        ensures
            file@ == self@.active,
            file.wf(),
    {
        &self.active_file
    }

    /// The archived segments, in ascending order of their numbers.
    pub fn arch_files(&self) -> (files: &Vec<DBFile>)
        requires
            self.wf(),
        ensures
            views(files@) == self@.archived,
            forall|i: int| 0 <= i < files@.len() ==> (#[trigger] files@[i]).wf(),
    {
        &self.arch_files
    }

    /// Opens the engine on the segments found in its directory, reading the
    /// clock once for the replay.
    pub fn open(config: Config, segments: Vec<(u32, Vec<u8>)>) -> (r: Option<kv>)
        ensures
            r is Some <==> loadable(segments@),
            r matches Some(db) ==> {
                &&& db.wf()
                &&& db@.dir_path == config.dir_path@
                &&& db@.max_file_size == config.max_file_size
                &&& db@.holds(segments@)
                &&& exists|now: u64|
                    db@.index == #[trigger] IndexView::empty().replay_files(db@.segments(), now)
            },
    {
        let now = time_now();
        kv::open_at(config, segments, now)
    }

    /// Opens the engine on `segments` at time `now`.
    ///
    /// The segments are put in ascending order of their numbers; the highest
    /// becomes the active one and the others are archived. With no segment,
    /// the engine starts on an empty segment numbered 1. The index is then
    /// rebuilt by replaying the segments in that order.
    pub fn open_at(config: Config, segments: Vec<(u32, Vec<u8>)>, now: u64) -> (r: Option<kv>)
        ensures
            r is Some <==> loadable(segments@),
            r matches Some(db) ==> {
                &&& db.wf()
                &&& db@.dir_path == config.dir_path@
                &&& db@.max_file_size == config.max_file_size
                &&& db@.holds(segments@)
                &&& db@.index == IndexView::empty().replay_files(db@.segments(), now)
            },
    {
        let mut rest = segments;
        let mut files: Vec<DBFile> = Vec::new();
        while rest.len() > 0
            invariant
                rest@ == segments@.take(rest@.len() as int),
                rest@.len() <= segments@.len(),
                files@.len() == segments@.len() - rest@.len(),
                forall|j: int| 0 <= j < files@.len() ==> (#[trigger] files@[j]).wf(),
                ascending(views(files@)),
                all_open(views(files@)),
                all_in(views(files@), config.dir_path@),
                covers(views(files@), segments@, rest@.len() as int),
                drawn_from(views(files@), segments@, rest@.len() as int),
                loadable_from(segments@, rest@.len() as int),
            decreases rest@.len(),
        {
            let ghost at = rest@.len() - 1;
            let ghost before = files@;
            let (id, contents) = match rest.pop() {
                Some(segment) => segment,
                None => { return None; },
            };
            assert(segments@[at] == (id, contents));
            let mut pos: usize = 0;
            while pos < files.len() && files[pos].id() < id
                invariant
                    pos <= files@.len(),
                    forall|j: int| 0 <= j < pos ==> (#[trigger] views(files@)[j]).id < id,
                decreases files@.len() - pos,
            {
                pos = pos + 1;
            }
            if pos < files.len() && files[pos].id() == id {
                proof {
                    duplicate_is_not_loadable(views(files@), segments@, at, pos as int);
                }
                return None;
            }
            let file = match DBFile::new(config.dir_path.clone(), id, contents) {
                Some(file) => file,
                None => {
                    assert(segments@[at].1@.len() > u32::MAX);
                    return None;
                },
            };
            assert(fits_at(views(before), pos as int, file@));
            files.insert(pos, file);
            proof {
                assert(views(files@) =~= views(before).insert(pos as int, file@));
                insert_keeps_ascending(views(before), pos as int, file@);
                insert_keeps_open(views(before), pos as int, file@, config.dir_path@);
                insert_covers(views(before), pos as int, file@, segments@, at);
                insert_is_drawn_from(views(before), pos as int, file@, segments@, at);
                one_more_is_loadable(views(before), file@, segments@, at);
                assert(rest@ =~= segments@.take(rest@.len() as int));
            }
        }
        let ghost sorted = files@;
        let mut journal: Vec<DiskOp> = Vec::new();
        let active_file = match files.pop() {
            Some(file) => file,
            None => match DBFile::new(config.dir_path.clone(), 1, Vec::new()) {
                Some(file) => {
                    journal.push(DiskOp::Create { id: 1 });
                    file
                },
                None => { return None; },
            },
        };
        let ghost saved: Disk = if segments@.len() == 0 {
            Map::empty()
        } else {
            image(views(sorted))
        };
        let mut db = kv {
            config,
            hash_index: hash::Hash::default(),
            expires: StringHashMap::new(),
            active_file,
            arch_files: files,
            journal,
            saved: Ghost(saved),
        };
        proof {
            if segments@.len() > 0 {
                assert(db@.segments() =~= views(sorted));
                assert(db@.journal =~= Seq::<DiskOpView>::empty());
                assert(perform_all(db@.saved, db@.journal) == db@.saved);
            } else {
                let only = DBFileView { id: 1, path: db@.dir_path, bytes: Seq::empty(), open: true };
                let create = DiskOpView::Create { id: 1 };
                assert(db@.segments() =~= seq![only]);
                assert(db@.journal =~= seq![create]);
                assert(db@.journal.drop_last() =~= Seq::<DiskOpView>::empty());
                assert(db@.segments().drop_last() =~= Seq::<DBFileView>::empty());
                assert(image(db@.segments().drop_last()) == Map::<u32, Seq<u8>>::empty());
                assert(image(db@.segments()) == Map::<u32, Seq<u8>>::empty().insert(1, Seq::empty()));
                assert(perform_all(db@.saved, db@.journal.drop_last()) == db@.saved);
                assert(perform_all(db@.saved, db@.journal) == perform(db@.saved, create));
            }
            assert(db@.consistent());
            assert(db@.holds(segments@));
        }
        let ghost opened = db@;
        db.build_index_at(now);
        proof {
            assert(db@.segments() == opened.segments());
        }
        Some(db)
    }

    /// Reads `key` by the clock. A key whose deadline has passed reads as
    /// absent and leaves the index.
    pub fn get(&mut self, key: String) -> (r: Option<String>)
        requires
            old(self).wf(),
        ensures
            final(self).wf(),
            exists|now: u64|
                {
                    &&& final(self)@ == (#[trigger] old(self)@.spec_get(key@, now)).1
                    &&& match r {
                        Some(value) => old(self)@.spec_get(key@, now).0 == Some(value@),
                        None => old(self)@.spec_get(key@, now).0 is None,
                    }
                },
    {
        let now = time_now();
        self.get_at(key, now)
    }

    /// Reads `key` at time `now`.
    pub fn get_at(&mut self, key: String, now: u64) -> (r: Option<String>)
        requires
            old(self).wf(),
        ensures
            final(self).wf(),
            final(self)@ == old(self)@.spec_get(key@, now).1,
            match r {
                Some(value) => old(self)@.spec_get(key@, now).0 == Some(value@),
                None => old(self)@.spec_get(key@, now).0 is None,
            },
    {
        if !check_key_value(&key, &String::new()) {
            return None;
        }
        if !self.check_expired_at(&key, now) {
            self.expires.remove(key.as_str());
            self.hash_index.delete(key);
            return None;
        }
        self.hash_index.get(key)
    }

    /// Sets `key` to `value`, with a record stamped by the clock.
    pub fn set(&mut self, key: String, value: String) -> (ok: bool)
        requires
            old(self).wf(),
        ensures
            final(self).wf(),
            exists|now: u64| (ok, final(self)@) == #[trigger] old(self)@.spec_set(key@, value@, now),
    {
        let now = time_now();
        self.set_at(key, value, now)
    }

    /// Sets `key` to `value`, with a record stamped `now`. The record is
    /// appended first; the index changes only when that succeeded.
    pub fn set_at(&mut self, key: String, value: String, now: u64) -> (ok: bool)
        requires
            old(self).wf(),
        ensures
            final(self).wf(),
            (ok, final(self)@) == old(self)@.spec_set(key@, value@, now),
    {
        if !check_key_value(&key, &value) {
            return false;
        }
        let entry = Entry::new_with_expire(
            text_bytes(&key),
            text_bytes(&value),
            now,
            0,
            EntryType::SetValue.mark(),
        );
        if !self.store_entry(entry) {
            return false;
        }
        self.hash_index.set(key, value);
        true
    }

    /// Sets `key` to `value` until `deadline`; the record carries the
    /// deadline as its time stamp.
    pub fn set_with_expire(&mut self, key: String, value: String, deadline: u64) -> (ok: bool)
        requires
            old(self).wf(),
        ensures
            final(self).wf(),
            (ok, final(self)@) == old(self)@.spec_set_with_expire(key@, value@, deadline),
    {
        if !check_key_value(&key, &value) {
            return false;
        }
        let entry = Entry::new_with_expire(
            text_bytes(&key),
            text_bytes(&value),
            deadline,
            0,
            EntryType::SetWithExpire.mark(),
        );
        if !self.store_entry(entry) {
            return false;
        }
        self.expires.insert(key.clone(), deadline);
        self.hash_index.set(key, value);
        true
    }

    /// Deletes `key`, with a record stamped by the clock.
    pub fn delete(&mut self, key: String) -> (ok: bool)
        requires
            old(self).wf(),
        ensures
            final(self).wf(),
            exists|now: u64| (ok, final(self)@) == #[trigger] old(self)@.spec_delete(key@, now),
    {
        let now = time_now();
        self.delete_at(key, now)
    }

    /// Deletes `key`, with a record stamped `now`.
    pub fn delete_at(&mut self, key: String, now: u64) -> (ok: bool)
        requires
            old(self).wf(),
        ensures
            final(self).wf(),
            (ok, final(self)@) == old(self)@.spec_delete(key@, now),
    {
        if !check_key_value(&key, &String::new()) {
            return false;
        }
        let entry = Entry::new_with_expire(text_bytes(&key), Vec::new(), now, 0, EntryType::Delete.mark());
        if !self.store_entry(entry) {
            return false;
        }
        self.expires.remove(key.as_str());
        self.hash_index.delete(key);
        true
    }

    /// Removes every key and deadline, with a record stamped by the clock.
    pub fn clear(&mut self) -> (ok: bool)
        requires
            old(self).wf(),
        ensures
            final(self).wf(),
            exists|now: u64| (ok, final(self)@) == #[trigger] old(self)@.spec_clear(now),
    {
        let now = time_now();
        self.clear_at(now)
    }

    /// Removes every key and deadline, with a record stamped `now`.
    pub fn clear_at(&mut self, now: u64) -> (ok: bool)
        requires
            old(self).wf(),
        ensures
            final(self).wf(),
            (ok, final(self)@) == old(self)@.spec_clear(now),
    {
        let entry = Entry::new_with_expire(Vec::new(), Vec::new(), now, 0, EntryType::Clear.mark());
        if !self.store_entry(entry) {
            return false;
        }
        self.expires.clear();
        self.hash_index.clear();
        true
    }

    /// Closes every segment and journals a flush for each one that was
    /// open. The index stays as it is; the log takes no more records.
    pub fn close(&mut self)
        requires
            old(self).wf(),
        ensures
            final(self).wf(),
            final(self)@ == old(self)@.spec_close(),
    {
        let mut i: usize = 0;
        while i < self.arch_files.len()
            invariant
                i <= self.arch_files@.len(),
                self.arch_files@.len() == old(self).arch_files@.len(),
                self.active_file == old(self).active_file,
                self.config == old(self).config,
                self.hash_index == old(self).hash_index,
                self.expires == old(self).expires,
                self.saved == old(self).saved,
                old(self).wf(),
                forall|j: int| 0 <= j < self.arch_files@.len() ==> (#[trigger] self.arch_files@[j]).wf(),
                forall|j: int|
                    0 <= j < i ==> (#[trigger] self.arch_files@[j])@ == (DBFileView {
                        open: false,
                        ..old(self).arch_files@[j]@
                    }),
                forall|j: int|
                    i <= j < self.arch_files@.len() ==> #[trigger] self.arch_files@[j] == old(
                        self,
                    ).arch_files@[j],
                op_views(self.journal@) == old(self)@.journal + close_ops(
                    old(self)@.archived.take(i as int),
                ),
            decreases self.arch_files@.len() - i,
        {
            proof {
                let seen = old(self)@.archived.take(i + 1);
                assert(seen.drop_last() =~= old(self)@.archived.take(i as int));
                assert(seen.last() == old(self).arch_files@[i as int]@);
            }
            let ghost journal_before = op_views(self.journal@);
            let id = self.arch_files[i].id();
            if self.arch_files[i].close() {
                self.journal.push(DiskOp::Sync { id });
                assert(op_views(self.journal@) =~= journal_before.push(DiskOpView::Sync { id }));
            }
            assert(op_views(self.journal@) =~= old(self)@.journal + close_ops(
                old(self)@.archived.take(i + 1),
            ));
            i = i + 1;
        }
        proof {
            assert(old(self)@.archived.take(i as int) =~= old(self)@.archived);
            assert(old(self)@.segments().drop_last() =~= old(self)@.archived);
        }
        let ghost journal_before = op_views(self.journal@);
        let id = self.active_file.id();
        if self.active_file.close() {
            self.journal.push(DiskOp::Sync { id });
            assert(op_views(self.journal@) =~= journal_before.push(DiskOpView::Sync { id }));
        }
        proof {
            assert(op_views(self.journal@) =~= old(self)@.journal + close_ops(old(self)@.segments()));
            assert(self@.archived =~= closed_files(old(self)@.archived));
            assert(self@ == old(self)@.spec_close());
            closed_is_consistent(old(self)@);
        }
    }

    /// Whether `key` is still good by the clock: false once its deadline has
    /// passed.
    pub fn check_expired(&self, key: &String) -> (live: bool)
        ensures
            exists|now: u64| live == !#[trigger] self@.index.expired(key@, now),
    {
        let now = time_now();
        self.check_expired_at(key, now)
    }

    /// Whether `key` is still good at time `now`: it has no deadline, or its
    /// deadline has not passed.
    pub fn check_expired_at(&self, key: &String, now: u64) -> (live: bool)
        ensures
            live == !self@.index.expired(key@, now),
    {
        match self.expires.get(key.as_str()) {
            Some(deadline) => now <= *deadline,
            None => true,
        }
    }

    /// Appends `entry` to the log, starting a new active segment first when
    /// the current one has outgrown the configured size, and journals the
    /// same for the files. Refuses, changing nothing, when the log cannot
    /// take the record.
    pub fn store_entry(&mut self, entry: Entry) -> (ok: bool)
        requires
            old(self).wf(),
        ensures
            final(self).wf(),
            ok == old(self)@.can_store(entry@),
            final(self)@ == if ok {
                old(self)@.stored(entry@)
            } else {
                old(self)@
            },
    {
        if !self.active_file.is_open() || !entry.valid || !entry.sizes_match() {
            return false;
        }
        let size: u64 = 22 + entry.key_size as u64 + entry.value_size as u64;
        let rotate = self.active_file.offset() > self.config.max_file_size;
        if rotate {
            if self.active_file.id() == u32::MAX || size > u32::MAX as u64 {
                return false;
            }
        } else if self.active_file.offset() as u64 + size > u32::MAX as u64 {
            return false;
        }
        let bytes = match entry.encode() {
            Some(bytes) => bytes,
            None => { return false; },
        };
        let ghost journal_before = op_views(self.journal@);
        if rotate {
            let active_id = self.active_file.id();
            let mut file = match DBFile::new(self.config.dir_path.clone(), active_id + 1, Vec::new()) {
                Some(file) => file,
                None => { return false; },
            };
            self.active_file.close();
            std::mem::swap(&mut self.active_file, &mut file);
            self.arch_files.push(file);
            self.journal.push(DiskOp::Sync { id: active_id });
            self.journal.push(DiskOp::Create { id: active_id + 1 });
            self.journal.push(DiskOp::Append { id: active_id + 1, bytes });
            let ok = self.active_file.write(entry);
            proof {
                assert(self@.archived =~= old(self)@.archived.push(
                    DBFileView { open: false, ..old(self)@.active },
                ));
                assert(self@.active.bytes =~= entry@.encoding());
                assert(op_views(self.journal@) =~= journal_before.push(
                    DiskOpView::Sync { id: active_id },
                ).push(DiskOpView::Create { id: (active_id + 1) as u32 }).push(
                    DiskOpView::Append { id: (active_id + 1) as u32, bytes: entry@.encoding() },
                ));
                assert(self@ == old(self)@.stored(entry@));
                stored_is_consistent(old(self)@, entry@);
            }
            ok
        } else {
            let id = self.active_file.id();
            self.journal.push(DiskOp::Append { id, bytes });
            let ok = self.active_file.write(entry);
            proof {
                assert(self@.archived == old(self)@.archived);
                assert(op_views(self.journal@) =~= journal_before.push(
                    DiskOpView::Append { id, bytes: entry@.encoding() },
                ));
                assert(self@ == old(self)@.stored(entry@));
                stored_is_consistent(old(self)@, entry@);
            }
            ok
        }
    }

    /// Rebuilds the index on top of what it holds by replaying every
    /// segment, archived ones first in ascending order, then the active one,
    /// reading the clock once for the whole replay.
    pub fn build_index(&mut self)
        requires
            old(self).wf(),
        ensures
            final(self).wf(),
            exists|now: u64|
                final(self)@ == (KvView {
                    index: #[trigger] old(self)@.index.replay_files(old(self)@.segments(), now),
                    ..old(self)@
                }),
    {
        let now = time_now();
        self.build_index_at(now);
    }

    /// Rebuilds the index on top of what it holds by replaying every
    /// segment at time `now`.
    pub fn build_index_at(&mut self, now: u64)
        requires
            old(self).wf(),
        ensures
            final(self).wf(),
            final(self)@ == (KvView {
                index: old(self)@.index.replay_files(old(self)@.segments(), now),
                ..old(self)@
            }),
    {
        let mut i: usize = 0;
        while i < self.arch_files.len()
            invariant
                i <= self.arch_files@.len(),
                self.active_file == old(self).active_file,
                self.arch_files == old(self).arch_files,
                self.config == old(self).config,
                self.journal == old(self).journal,
                self.saved == old(self).saved,
                old(self).wf(),
                self@.index == old(self)@.index.replay_files(old(self)@.archived.take(i as int), now),
            decreases self.arch_files@.len() - i,
        {
            proof {
                let seen = old(self)@.archived.take(i + 1);
                assert(seen.drop_last() =~= old(self)@.archived.take(i as int));
                assert(seen.last() == self.arch_files@[i as int]@);
            }
            replay_file(&self.arch_files[i], &mut self.hash_index, &mut self.expires, now);
            i = i + 1;
        }
        proof {
            assert(old(self)@.archived.take(i as int) =~= old(self)@.archived);
            assert(old(self)@.segments().drop_last() =~= old(self)@.archived);
        }
        replay_file(&self.active_file, &mut self.hash_index, &mut self.expires, now);
        proof {
            replay_keeps_consistent(old(self)@.index, old(self)@.segments(), now);
        }
    }

    /// Replays one record into the index, reading the clock to decide
    /// whether a deadline still lies ahead.
    pub fn build_entry(&mut self, entry: Entry)
        requires
            old(self).wf(),
        ensures
            final(self).wf(),
            exists|now: u64|
                final(self)@ == (KvView {
                    index: #[trigger] old(self)@.index.apply(entry@, now),
                    ..old(self)@
                }),
    {
        let now = time_now();
        self.build_entry_at(entry, now);
    }

    /// Replays one record into the index at time `now`.
    pub fn build_entry_at(&mut self, entry: Entry, now: u64)
        requires
            old(self).wf(),
        ensures
            final(self).wf(),
            final(self)@ == (KvView { index: old(self)@.index.apply(entry@, now), ..old(self)@ }),
    {
        apply_entry(&mut self.hash_index, &mut self.expires, entry, now);
    }

    /// Hands out the journal: the steps to perform on the files, in order,
    /// since the journal was last handed out. Once they are performed, the
    /// files hold what the segments hold.
    pub fn take_journal(&mut self) -> (ops: Vec<DiskOp>)
        requires
            old(self).wf(),
        ensures
            final(self).wf(),
            op_views(ops@) == old(self)@.journal,
            final(self)@ == old(self)@.spec_take_journal(),
    {
        let mut ops: Vec<DiskOp> = Vec::new();
        std::mem::swap(&mut self.journal, &mut ops);
        self.saved = Ghost(image(self@.segments()));
        assert(op_views(self.journal@) =~= Seq::<DiskOpView>::empty());
        ops
    }
}

} // verus!
