//! What holds of the engine's model: how replay answers to the live
//! operations, and what rotation, truncation and rejected requests do.

use crate::bitcask::entry_type::EntryType;
use crate::bitcask::journal::perform;
use crate::bitcask::journal::perform_all;
use crate::bitcask::journal::syncs_change_nothing;
use crate::bitcask::journal::DiskOpView;
use crate::bitcask::model::all_open;
use crate::bitcask::model::clear_record;
use crate::bitcask::model::close_ops;
use crate::bitcask::model::closed_files;
use crate::bitcask::model::delete_record;
use crate::bitcask::model::expire_record;
use crate::bitcask::model::image;
use crate::bitcask::model::reopened;
use crate::bitcask::model::set_record;
use crate::bitcask::model::text_of;
use crate::bitcask::model::valid_key_value;
use crate::bitcask::model::IndexView;
use crate::bitcask::model::KvView;
use crate::bitcask::storage::db_file::append_keeps_records;
use crate::bitcask::storage::db_file::is_clean_log;
use crate::bitcask::storage::db_file::records_from;
use crate::bitcask::storage::db_file::truncated_tail_is_dropped;
use crate::bitcask::storage::db_file::DBFileView;
use crate::bitcask::storage::entry::mark_survives_packing;
use crate::bitcask::storage::entry::EntryView;
use vstd::prelude::*;
use vstd::utf8::encode_utf8;
use vstd::utf8::encode_utf8_decode_utf8;
use vstd::utf8::encode_utf8_valid_utf8;

verus! {

/// Text survives its encoding: the UTF-8 bytes of `text` decode to `text`.
pub proof fn text_round_trip(text: Seq<char>)
    ensures
        text_of(encode_utf8(text)) == Some(text),
{
    encode_utf8_valid_utf8(text);
    encode_utf8_decode_utf8(text);
}

/// Replaying the record of a set does to the index what the set did.
pub proof fn set_replays(index: IndexView, key: Seq<char>, value: Seq<char>, stamp: u64, now: u64)
    requires
        valid_key_value(encode_utf8(key), encode_utf8(value)),
    ensures
        index.apply(set_record(key, value, stamp).stored(), now) == index.set(key, value),
{
    text_round_trip(key);
    text_round_trip(value);
    mark_survives_packing(0, EntryType::SetValue.spec_mark());
}

/// Replaying the record of a set with a deadline sets the value; the
/// deadline is recorded only while it lies in the future.
pub proof fn expire_replays(index: IndexView, key: Seq<char>, value: Seq<char>, deadline: u64, now: u64)
    requires
        valid_key_value(encode_utf8(key), encode_utf8(value)),
    ensures
        index.apply(expire_record(key, value, deadline).stored(), now) == if deadline > now {
            index.set_with_expire(key, value, deadline)
        } else {
            index.set(key, value)
        },
{
    text_round_trip(key);
    text_round_trip(value);
    mark_survives_packing(0, EntryType::SetWithExpire.spec_mark());
}

/// Replaying the record of a delete does to the index what the delete did.
pub proof fn delete_replays(index: IndexView, key: Seq<char>, stamp: u64, now: u64)
    requires
        valid_key_value(encode_utf8(key), Seq::empty()),
    ensures
        index.apply(delete_record(key, stamp).stored(), now) == index.delete(key),
{
    text_round_trip(key);
    mark_survives_packing(0, EntryType::Delete.spec_mark());
}

/// Replaying the record of a clear empties the index, whatever it held.
pub proof fn clear_replays(index: IndexView, stamp: u64, now: u64)
    ensures
        index.apply(clear_record(stamp).stored(), now) == IndexView::empty(),
{
    mark_survives_packing(0, EntryType::Clear.spec_mark());
}

/// The last writer wins: after replaying two sets of one key, the key reads
/// as the second value.
pub proof fn last_writer_wins(
    index: IndexView,
    key: Seq<char>,
    first: Seq<char>,
    second: Seq<char>,
    stamps: (u64, u64),
    now: u64,
)
    requires
        valid_key_value(encode_utf8(key), encode_utf8(first)),
        valid_key_value(encode_utf8(key), encode_utf8(second)),
    ensures
        index.apply_all(
            seq![set_record(key, first, stamps.0).stored(), set_record(key, second, stamps.1).stored()],
            now,
        ).get(key) == Some(second),
{
    let records = seq![
        set_record(key, first, stamps.0).stored(),
        set_record(key, second, stamps.1).stored(),
    ];
    set_replays(index, key, first, stamps.0, now);
    set_replays(index.set(key, first), key, second, stamps.1, now);
    assert(records.drop_first() =~= seq![set_record(key, second, stamps.1).stored()]);
    assert(records.drop_first().drop_first() =~= Seq::<EntryView>::empty());
    assert(index.apply_all(records, now) == index.set(key, first).set(key, second)) by {
        reveal_with_fuel(IndexView::apply_all, 3);
    }
}

/// A clear wipes what was set before it and spares what is set after it.
pub proof fn clear_wipes_before_not_after(
    index: IndexView,
    key: Seq<char>,
    value: Seq<char>,
    later_key: Seq<char>,
    later_value: Seq<char>,
    stamps: (u64, u64, u64),
    now: u64,
)
    requires
        valid_key_value(encode_utf8(key), encode_utf8(value)),
        valid_key_value(encode_utf8(later_key), encode_utf8(later_value)),
        key != later_key,
    ensures
        ({
            let replayed = index.apply_all(
                seq![
                    set_record(key, value, stamps.0).stored(),
                    clear_record(stamps.1).stored(),
                    set_record(later_key, later_value, stamps.2).stored(),
                ],
                now,
            );
            replayed.get(key) is None && replayed.get(later_key) == Some(later_value)
        }),
{
    let records = seq![
        set_record(key, value, stamps.0).stored(),
        clear_record(stamps.1).stored(),
        set_record(later_key, later_value, stamps.2).stored(),
    ];
    set_replays(index, key, value, stamps.0, now);
    clear_replays(index.set(key, value), stamps.1, now);
    set_replays(IndexView::empty(), later_key, later_value, stamps.2, now);
    let tail = records.drop_first();
    assert(tail =~= seq![
        clear_record(stamps.1).stored(),
        set_record(later_key, later_value, stamps.2).stored(),
    ]);
    assert(tail.drop_first() =~= seq![set_record(later_key, later_value, stamps.2).stored()]);
    assert(tail.drop_first().drop_first() =~= Seq::<EntryView>::empty());
    assert(index.apply_all(records, now) == IndexView::empty().set(later_key, later_value)) by {
        reveal_with_fuel(IndexView::apply_all, 4);
    }
}

/// What a replay loads does not depend on the clock: two replays of the
/// same records give the same values, whatever time each one reads; only
/// the deadlines recorded may differ.
pub proof fn replayed_values_ignore_clock(
    first: IndexView,
    second: IndexView,
    entries: Seq<EntryView>,
    times: (u64, u64),
)
    requires
        first.values == second.values,
    ensures
        first.apply_all(entries, times.0).values == second.apply_all(entries, times.1).values,
    decreases entries.len(),
{
    if entries.len() > 0 {
        replayed_values_ignore_clock(
            first.apply(entries.first(), times.0),
            second.apply(entries.first(), times.1),
            entries.drop_first(),
            times,
        );
    }
}

/// Replay is repeatable: replaying the same segments twice from scratch
/// gives the same values both times, whatever the clock reads, and the same
/// deadlines too when it reads the same.
pub proof fn replay_is_repeatable(files: Seq<DBFileView>, times: (u64, u64))
    ensures
        IndexView::empty().replay_files(files, times.0).values == IndexView::empty().replay_files(
            files,
            times.1,
        ).values,
        times.0 == times.1 ==> IndexView::empty().replay_files(files, times.0)
            == IndexView::empty().replay_files(files, times.1),
    decreases files.len(),
{
    if files.len() > 0 {
        replay_is_repeatable(files.drop_last(), times);
        replayed_values_ignore_clock(
            IndexView::empty().replay_files(files.drop_last(), times.0),
            IndexView::empty().replay_files(files.drop_last(), times.1),
            records_from(files.last().bytes, 0),
            times,
        );
    }
}

/// Segments too short to hold a record replay to nothing: the index stays
/// as it was. In particular an engine opened on an empty directory starts
/// with an empty index.
pub proof fn short_segments_replay_to_nothing(index: IndexView, files: Seq<DBFileView>, now: u64)
    requires
        forall|i: int| 0 <= i < files.len() ==> (#[trigger] files[i]).bytes.len() < 22,
    ensures
        index.replay_files(files, now) == index,
    decreases files.len(),
{
    if files.len() > 0 {
        assert(files.last().bytes.len() < 22);
        assert forall|i: int| 0 <= i < files.drop_last().len() implies (#[trigger] files.drop_last()[i]).bytes.len()
            < 22 by {
            assert(files.drop_last()[i] == files[i]);
        }
        short_segments_replay_to_nothing(index, files.drop_last(), now);
        assert(records_from(files.last().bytes, 0) =~= Seq::<EntryView>::empty());
    }
}

/// The records that the engine writes leave the reserved type at zero and
/// carry the mark of their operation.
pub proof fn engine_records_reserve_nothing(key: Seq<char>, value: Seq<char>, stamp: u64)
    ensures
        set_record(key, value, stamp).state == EntryType::SetValue.spec_mark(),
        expire_record(key, value, stamp).state == EntryType::SetWithExpire.spec_mark(),
        delete_record(key, stamp).state == EntryType::Delete.spec_mark(),
        clear_record(stamp).state == EntryType::Clear.spec_mark(),
{
    assert(((0u16 << 8) | 0u16) == 0u16) by (bit_vector);
    assert(((0u16 << 8) | 1u16) == 1u16) by (bit_vector);
    assert(((0u16 << 8) | 2u16) == 2u16) by (bit_vector);
    assert(((0u16 << 8) | 3u16) == 3u16) by (bit_vector);
}

/// Lazy expiry: a key set with a deadline that has passed reads as absent
/// and leaves the index on that read, while a fresh replay of its record
/// still loads the value and records no deadline for it.
pub proof fn expired_key_leaves_on_read(
    engine: KvView,
    key: Seq<char>,
    value: Seq<char>,
    deadline: u64,
    now: u64,
)
    requires
        engine.spec_set_with_expire(key, value, deadline).0,
        now > deadline,
    ensures
        ({
            let written = engine.spec_set_with_expire(key, value, deadline).1;
            let (found, after) = written.spec_get(key, now);
            &&& found is None
            &&& !after.index.values.contains_key(key)
            &&& !after.index.deadlines.contains_key(key)
            &&& after.segments() == written.segments()
            &&& after.journal == written.journal
        }),
        forall|index: IndexView|
            (#[trigger] index.apply(expire_record(key, value, deadline).stored(), now)) == index.set(
                key,
                value,
            ),
{
    assert forall|index: IndexView|
        (#[trigger] index.apply(expire_record(key, value, deadline).stored(), now)) == index.set(
            key,
            value,
        ) by {
        expire_replays(index, key, value, deadline, now);
    }
}

/// Rotation: a record stored when the active segment has outgrown the
/// configured size goes to a new active segment with the next number; the
/// old active segment is archived with every byte it held, and the new one
/// holds the record alone.
pub proof fn rotation_archives_active(engine: KvView, entry: EntryView)
    requires
        engine.needs_rotation(),
        engine.can_store(entry),
    ensures
        ({
            let rotated = engine.stored(entry);
            &&& rotated.active.id == engine.active.id + 1
            &&& rotated.archived.len() == engine.archived.len() + 1
            &&& rotated.archived.last().id == engine.active.id
            &&& rotated.archived.last().bytes == engine.active.bytes
            &&& forall|i: int|
                0 <= i < engine.archived.len() ==> rotated.archived[i] == engine.archived[i]
            &&& records_from(rotated.active.bytes, 0) == seq![entry.stored()]
            &&& is_clean_log(rotated.active.bytes)
        }),
{
    append_keeps_records(Seq::empty(), entry);
    assert(Seq::<u8>::empty() + entry.encoding() =~= entry.encoding());
    assert(records_from(Seq::<u8>::empty(), 0) =~= Seq::<EntryView>::empty());
    assert(Seq::<EntryView>::empty().push(entry.stored()) =~= seq![entry.stored()]);
}

/// Storing a record loses none: without rotation, the active segment, if
/// it was a clean log, holds the records it held and then the new one; no
/// archived segment changes.
pub proof fn store_keeps_records(engine: KvView, entry: EntryView)
    requires
        !engine.needs_rotation(),
        engine.can_store(entry),
        is_clean_log(engine.active.bytes),
    ensures
        ({
            let grown = engine.stored(entry);
            &&& grown.active.id == engine.active.id
            &&& grown.archived == engine.archived
            &&& records_from(grown.active.bytes, 0) == records_from(engine.active.bytes, 0).push(
                entry.stored(),
            )
            &&& is_clean_log(grown.active.bytes)
        }),
{
    append_keeps_records(engine.active.bytes, entry);
}

/// Reading the directory again changes nothing about segments that are
/// open: an engine as it was opened holds the index that its log replays
/// to.
pub proof fn reopening_open_files_is_nothing(files: Seq<DBFileView>)
    requires
        all_open(files),
    ensures
        reopened(files) == files,
{
    assert forall|i: int| 0 <= i < files.len() implies reopened(files)[i] == files[i] by {
        assert(files[i].open);
    }
    assert(reopened(files) =~= files);
}

/// Replaying records and then one more is replaying them all.
pub proof fn apply_all_then_one(index: IndexView, entries: Seq<EntryView>, entry: EntryView, now: u64)
    ensures
        index.apply_all(entries.push(entry), now) == index.apply_all(entries, now).apply(entry, now),
    decreases entries.len(),
{
    if entries.len() == 0 {
        assert(entries.push(entry).drop_first() =~= Seq::<EntryView>::empty());
        assert(index.apply_all(entries.push(entry), now) == index.apply(entry, now)) by {
            reveal_with_fuel(IndexView::apply_all, 2);
        }
    } else {
        assert(entries.push(entry).first() == entries.first());
        assert(entries.push(entry).drop_first() =~= entries.drop_first().push(entry));
        apply_all_then_one(index.apply(entries.first(), now), entries.drop_first(), entry, now);
    }
}

/// The log is the truth of the index: after a record is stored, an engine
/// opened on the segments starts with the index it would have started with
/// before, with that record replayed last. This holds whether or not the
/// record went to a new segment, as long as the active segment was a clean
/// log.
pub proof fn stored_record_replays_last(engine: KvView, entry: EntryView, now: u64)
    requires
        engine.can_store(entry),
        is_clean_log(engine.active.bytes),
    ensures
        engine.stored(entry).replayed(now) == engine.replayed(now).apply(entry.stored(), now),
{
    let after = engine.stored(entry);
    let before_files = reopened(engine.segments());
    let after_files = reopened(after.segments());
    assert(before_files.drop_last() =~= reopened(engine.archived));
    assert(before_files.last() == DBFileView { open: true, ..engine.active });
    let archived = IndexView::empty().replay_files(reopened(engine.archived), now);
    if engine.needs_rotation() {
        assert(after_files.drop_last() =~= before_files);
        rotation_archives_active(engine, entry);
        assert(seq![entry.stored()].drop_first() =~= Seq::<EntryView>::empty());
        assert(engine.replayed(now).apply_all(seq![entry.stored()], now) == engine.replayed(now).apply(
            entry.stored(),
            now,
        )) by {
            reveal_with_fuel(IndexView::apply_all, 2);
        }
    } else {
        assert(after_files.drop_last() =~= reopened(engine.archived));
        append_keeps_records(engine.active.bytes, entry);
        apply_all_then_one(archived, records_from(engine.active.bytes, 0), entry.stored(), now);
    }
}

/// Every write that succeeds leaves the values of the index as a replay of
/// the log would load them, provided they were so before and the active
/// segment was a clean log. Deadlines are left out: a deadline that has
/// passed is written to the log but not loaded from it.
pub proof fn writes_keep_values_replayable(
    engine: KvView,
    key: Seq<char>,
    value: Seq<char>,
    deadline: u64,
    stamp: u64,
    now: u64,
)
    requires
        engine.index.values == engine.replayed(now).values,
        is_clean_log(engine.active.bytes),
    ensures
        engine.spec_set(key, value, stamp).0 ==> engine.spec_set(key, value, stamp).1.index.values
            == engine.spec_set(key, value, stamp).1.replayed(now).values,
        engine.spec_set_with_expire(key, value, deadline).0 ==> engine.spec_set_with_expire(
            key,
            value,
            deadline,
        ).1.index.values == engine.spec_set_with_expire(key, value, deadline).1.replayed(now).values,
        engine.spec_delete(key, stamp).0 ==> engine.spec_delete(key, stamp).1.index.values
            == engine.spec_delete(key, stamp).1.replayed(now).values,
        engine.spec_clear(stamp).0 ==> engine.spec_clear(stamp).1.index.values == engine.spec_clear(
            stamp,
        ).1.replayed(now).values,
{
    let replayed = engine.replayed(now);
    if engine.spec_set(key, value, stamp).0 {
        let record = set_record(key, value, stamp);
        stored_record_replays_last(engine, record, now);
        set_replays(replayed, key, value, stamp, now);
        assert(engine.spec_set(key, value, stamp).1.replayed(now) == engine.stored(record).replayed(now));
    }
    if engine.spec_set_with_expire(key, value, deadline).0 {
        let record = expire_record(key, value, deadline);
        stored_record_replays_last(engine, record, now);
        expire_replays(replayed, key, value, deadline, now);
        assert(engine.spec_set_with_expire(key, value, deadline).1.replayed(now) == engine.stored(
            record,
        ).replayed(now));
    }
    if engine.spec_delete(key, stamp).0 {
        let record = delete_record(key, stamp);
        stored_record_replays_last(engine, record, now);
        delete_replays(replayed, key, stamp, now);
        assert(engine.spec_delete(key, stamp).1.replayed(now) == engine.stored(record).replayed(now));
    }
    if engine.spec_clear(stamp).0 {
        let record = clear_record(stamp);
        stored_record_replays_last(engine, record, now);
        clear_replays(replayed, stamp, now);
        assert(engine.spec_clear(stamp).1.replayed(now) == engine.stored(record).replayed(now));
    }
}

/// A record cut short at the end of a clean segment changes nothing for
/// replay: the index comes out as if the segment ended before it.
pub proof fn replay_drops_truncated_tail(index: IndexView, file: DBFileView, entry: EntryView, n: int, now: u64)
    requires
        is_clean_log(file.bytes),
        entry.sizes_match(),
        0 <= n < entry.size(),
    ensures
        index.replay(DBFileView { bytes: file.bytes + entry.encoding().take(n), ..file }, now)
            == index.replay(file, now),
{
    truncated_tail_is_dropped(file.bytes, entry, n);
}

/// A key or value that breaks the length rule is rejected by every
/// operation that writes, and the engine, index and log, stays as it was.
pub proof fn invalid_requests_change_nothing(
    engine: KvView,
    key: Seq<char>,
    value: Seq<char>,
    deadline: u64,
    now: u64,
)
    ensures
        !valid_key_value(encode_utf8(key), encode_utf8(value)) ==> engine.spec_set(key, value, now) == (
            false,
            engine,
        ),
        !valid_key_value(encode_utf8(key), encode_utf8(value)) ==> engine.spec_set_with_expire(
            key,
            value,
            deadline,
        ) == (false, engine),
        !valid_key_value(encode_utf8(key), Seq::empty()) ==> engine.spec_delete(key, now) == (
            false,
            engine,
        ),
        !valid_key_value(encode_utf8(key), Seq::empty()) ==> engine.spec_get(key, now) == (
            None::<Seq<char>>,
            engine,
        ),
{
}

/// Replaying one record keeps the index consistent.
pub proof fn apply_keeps_consistent(index: IndexView, entry: EntryView, now: u64)
    requires
        index.consistent(),
    ensures
        index.apply(entry, now).consistent(),
{
}

/// Replaying records keeps the index consistent.
pub proof fn apply_all_keeps_consistent(index: IndexView, entries: Seq<EntryView>, now: u64)
    requires
        index.consistent(),
    ensures
        index.apply_all(entries, now).consistent(),
    decreases entries.len(),
{
    if entries.len() > 0 {
        apply_keeps_consistent(index, entries.first(), now);
        apply_all_keeps_consistent(index.apply(entries.first(), now), entries.drop_first(), now);
    }
}

/// Replaying segments keeps the index consistent.
pub proof fn replay_keeps_consistent(index: IndexView, files: Seq<DBFileView>, now: u64)
    requires
        index.consistent(),
    ensures
        index.replay_files(files, now).consistent(),
    decreases files.len(),
{
    if files.len() > 0 {
        replay_keeps_consistent(index, files.drop_last(), now);
        apply_all_keeps_consistent(
            index.replay_files(files.drop_last(), now),
            records_from(files.last().bytes, 0),
            now,
        );
    }
}

/// Which segments are open makes no difference to the files that hold
/// them.
pub proof fn image_ignores_open(files: Seq<DBFileView>, others: Seq<DBFileView>)
    requires
        files.len() == others.len(),
        forall|i: int|
            0 <= i < files.len() ==> (#[trigger] files[i]).id == others[i].id && files[i].bytes
                == others[i].bytes,
    ensures
        image(files) == image(others),
    decreases files.len(),
{
    if files.len() > 0 {
        assert(files.last().id == others.last().id && files.last().bytes == others.last().bytes);
        assert forall|i: int| 0 <= i < files.drop_last().len() implies (#[trigger] files.drop_last()[i]).id
            == others.drop_last()[i].id && files.drop_last()[i].bytes == others.drop_last()[i].bytes by {
            assert(files.drop_last()[i] == files[i]);
        }
        image_ignores_open(files.drop_last(), others.drop_last());
    }
}

/// The steps that close segments only flush.
pub proof fn close_ops_only_sync(files: Seq<DBFileView>)
    ensures
        forall|i: int| 0 <= i < close_ops(files).len() ==> (#[trigger] close_ops(files)[i]) is Sync,
    decreases files.len(),
{
    if files.len() > 0 {
        close_ops_only_sync(files.drop_last());
    }
}

/// Storing a record keeps the engine consistent: in particular, the
/// journal still brings the files up to date with the segments.
pub proof fn stored_is_consistent(engine: KvView, entry: EntryView)
    requires
        engine.consistent(),
        engine.can_store(entry),
    ensures
        engine.stored(entry).consistent(),
{
    let after = engine.stored(entry);
    let before = image(engine.segments());
    assert(engine.segments().drop_last() =~= engine.archived);
    assert(before == image(engine.archived).insert(engine.active.id, engine.active.bytes));
    if engine.needs_rotation() {
        let next = (engine.active.id + 1) as u32;
        let closed = DBFileView { open: false, ..engine.active };
        let sync = DiskOpView::Sync { id: engine.active.id };
        let create = DiskOpView::Create { id: next };
        let append = DiskOpView::Append { id: next, bytes: entry.encoding() };
        let first = engine.journal.push(sync);
        let second = first.push(create);
        let third = second.push(append);
        assert(first.drop_last() =~= engine.journal);
        assert(second.drop_last() =~= first);
        assert(third.drop_last() =~= second);
        assert(perform_all(engine.saved, first) == before);
        assert(perform_all(engine.saved, second) == before.insert(next, Seq::<u8>::empty()));
        assert(Seq::<u8>::empty() + entry.encoding() =~= entry.encoding());
        assert(perform_all(engine.saved, third) =~= before.insert(next, entry.encoding()));
        assert(after.segments().drop_last() =~= after.archived);
        assert(after.archived.drop_last() =~= engine.archived);
        image_ignores_open(after.archived, engine.segments());
        assert(image(after.segments()) == before.insert(next, entry.encoding()));
        assert forall|j: int, k: int| 0 <= j < k < after.segments().len() implies (
        #[trigger] after.segments()[j]).id < (#[trigger] after.segments()[k]).id by {
            assert(after.segments()[j].id == engine.segments()[j].id);
            if k < engine.segments().len() {
                assert(after.segments()[k].id == engine.segments()[k].id);
                assert(engine.segments()[j].id < engine.segments()[k].id);
            } else {
                assert(engine.segments()[j].id <= engine.segments()[engine.archived.len() as int].id);
            }
        }
        assert forall|j: int| 0 <= j < after.segments().len() implies (#[trigger] after.segments()[j]).path
            == after.dir_path by {
            if j < engine.segments().len() {
                assert(after.segments()[j].path == engine.segments()[j].path);
            }
        }
    } else {
        let append = DiskOpView::Append { id: engine.active.id, bytes: entry.encoding() };
        assert(after.journal.drop_last() =~= engine.journal);
        assert(perform_all(engine.saved, after.journal) == perform(before, append));
        assert(after.segments().drop_last() =~= engine.archived);
        assert(image(after.segments()) =~= perform(before, append));
        assert forall|j: int, k: int| 0 <= j < k < after.segments().len() implies (
        #[trigger] after.segments()[j]).id < (#[trigger] after.segments()[k]).id by {
            assert(after.segments()[j].id == engine.segments()[j].id);
            assert(after.segments()[k].id == engine.segments()[k].id);
            assert(engine.segments()[j].id < engine.segments()[k].id);
        }
        assert forall|j: int| 0 <= j < after.segments().len() implies (#[trigger] after.segments()[j]).path
            == after.dir_path by {
            assert(after.segments()[j].path == engine.segments()[j].path);
        }
    }
}

/// Closing keeps the engine consistent: the flushes change no file.
pub proof fn closed_is_consistent(engine: KvView)
    requires
        engine.consistent(),
    ensures
        engine.spec_close().consistent(),
{
    let after = engine.spec_close();
    close_ops_only_sync(engine.segments());
    syncs_change_nothing(engine.saved, engine.journal, close_ops(engine.segments()));
    assert(after.segments() =~= closed_files(engine.segments()));
    image_ignores_open(after.segments(), engine.segments());
    assert forall|j: int, k: int| 0 <= j < k < after.segments().len() implies (
    #[trigger] after.segments()[j]).id < (#[trigger] after.segments()[k]).id by {
        assert(engine.segments()[j].id < engine.segments()[k].id);
    }
    assert forall|j: int| 0 <= j < after.segments().len() implies (#[trigger] after.segments()[j]).path
        == after.dir_path by {
        assert(engine.segments()[j].path == engine.dir_path);
    }
}

/// Handing out the journal keeps the engine consistent.
pub proof fn taken_is_consistent(engine: KvView)
    requires
        engine.consistent(),
    ensures
        engine.spec_take_journal().consistent(),
{
}

} // verus!
