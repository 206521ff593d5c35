use minis::bitcask::config::Config;
use minis::bitcask::journal::DiskOp;
use minis::bitcask::kv::check_key_value;
use minis::bitcask::kv::check_key_value_vec;
use minis::bitcask::kv::kv;
use minis::bitcask::storage::entry::Entry;
use std::collections::BTreeMap;

const MIB16: u32 = 16 * 1024 * 1024;

fn config(max_file_size: u32) -> Config {
    Config { dir_path: "data".to_string(), max_file_size }
}

fn s(text: &str) -> String {
    text.to_string()
}

fn record(key: &[u8], value: &[u8], stamp: u64, mark: u16) -> Vec<u8> {
    Entry::new_with_expire(key.to_vec(), value.to_vec(), stamp, 0, mark).encode().unwrap()
}

fn log(records: &[Vec<u8>]) -> Vec<u8> {
    records.concat()
}

/// Performs the engine's journal on a directory held in memory.
fn save(db: &mut kv, disk: &mut BTreeMap<u32, Vec<u8>>) {
    for op in db.take_journal() {
        match op {
            DiskOp::Create { id } => {
                assert!(disk.insert(id, Vec::new()).is_none());
            },
            DiskOp::Append { id, bytes } => {
                disk.get_mut(&id).unwrap().extend_from_slice(&bytes);
            },
            DiskOp::Sync { id } => {
                assert!(disk.contains_key(&id));
            },
        }
    }
}

fn segments(disk: &BTreeMap<u32, Vec<u8>>) -> Vec<(u32, Vec<u8>)> {
    disk.iter().map(|(id, bytes)| (*id, bytes.clone())).collect()
}

fn in_memory(db: &kv) -> BTreeMap<u32, Vec<u8>> {
    let mut files = BTreeMap::new();
    for file in db.arch_files() {
        files.insert(file.id(), file.bytes().clone());
    }
    files.insert(db.active_file().id(), db.active_file().bytes().clone());
    files
}

#[test]
fn key_and_value_lengths_are_checked_in_bytes() {
    assert!(check_key_value(&s("k"), &s("")));
    assert!(check_key_value(&"k".repeat(100), &"v".repeat(100)));
    assert!(!check_key_value(&s(""), &s("v")));
    assert!(!check_key_value(&"k".repeat(101), &s("v")));
    assert!(!check_key_value(&s("k"), &"v".repeat(101)));
    assert!(check_key_value(&"é".repeat(50), &s("v")));
    assert!(!check_key_value(&"é".repeat(51), &s("v")));
    assert!(check_key_value_vec(&vec![0; 1], &vec![]));
    assert!(check_key_value_vec(&vec![0; 100], &vec![0; 100]));
    assert!(!check_key_value_vec(&vec![], &vec![1]));
    assert!(!check_key_value_vec(&vec![0; 101], &vec![]));
    assert!(!check_key_value_vec(&vec![0; 1], &vec![0; 101]));
}

#[test]
fn open_on_nothing_starts_segment_one() {
    let mut db = kv::open_at(config(MIB16), vec![], 100).unwrap();
    assert_eq!(db.active_file().id(), 1);
    assert_eq!(db.active_file().offset(), 0);
    assert!(db.active_file().is_open());
    assert_eq!(db.active_file().path(), "data");
    assert!(db.arch_files().is_empty());
    assert_eq!(db.config().max_file_size, MIB16);
    assert_eq!(db.config().dir_path, "data");
    let ops = db.take_journal();
    assert_eq!(ops.len(), 1);
    assert!(matches!(ops[0], DiskOp::Create { id: 1 }));
    assert!(db.take_journal().is_empty());
}

#[test]
fn open_orders_segments_by_number() {
    let one = log(&[record(b"k", b"first", 1, 0)]);
    let two = log(&[record(b"k", b"second", 2, 0)]);
    let ten = log(&[record(b"k", b"third", 3, 0)]);
    let mut db = kv::open_at(
        config(MIB16),
        vec![(10, ten.clone()), (1, one.clone()), (2, two.clone())],
        100,
    ).unwrap();
    assert_eq!(db.active_file().id(), 10);
    assert_eq!(db.active_file().bytes(), &ten);
    assert_eq!(db.arch_files().len(), 2);
    assert_eq!(db.arch_files()[0].id(), 1);
    assert_eq!(db.arch_files()[0].bytes(), &one);
    assert_eq!(db.arch_files()[1].id(), 2);
    assert_eq!(db.arch_files()[1].bytes(), &two);
    assert!(db.arch_files()[0].is_open());
    assert_eq!(db.get_at(s("k"), 100), Some(s("third")));
    assert!(db.take_journal().is_empty());
}

#[test]
fn open_replays_archived_before_active() {
    let old = log(&[record(b"a", b"old", 1, 0), record(b"b", b"kept", 1, 0)]);
    let new = log(&[record(b"a", b"new", 2, 0)]);
    let mut db = kv::open_at(config(MIB16), vec![(2, new), (1, old)], 100).unwrap();
    assert_eq!(db.get_at(s("a"), 100), Some(s("new")));
    assert_eq!(db.get_at(s("b"), 100), Some(s("kept")));
}

#[test]
fn open_refuses_a_number_that_occurs_twice() {
    assert!(kv::open_at(config(MIB16), vec![(1, vec![]), (2, vec![]), (1, vec![])], 0).is_none());
    assert!(kv::open_at(config(MIB16), vec![(3, vec![]), (3, vec![])], 0).is_none());
    assert!(kv::open_at(config(MIB16), vec![(1, vec![]), (2, vec![]), (3, vec![])], 0).is_some());
}

#[test]
fn open_by_the_clock_loads_the_log() {
    let bytes = log(&[record(b"a", b"b", 1, 0)]);
    let mut db = kv::open(config(MIB16), vec![(1, bytes)]).unwrap();
    assert_eq!(db.get(s("a")), Some(s("b")));
}

#[test]
fn replay_last_writer_wins() {
    let bytes = log(&[record(b"k", b"v1", 1, 0), record(b"k", b"v2", 2, 0)]);
    let mut db = kv::open_at(config(MIB16), vec![(1, bytes)], 100).unwrap();
    assert_eq!(db.get_at(s("k"), 100), Some(s("v2")));
}

#[test]
fn replay_clear_wipes_what_came_before() {
    let bytes = log(&[
        record(b"k", b"v", 1, 0),
        record(b"", b"", 2, 3),
        record(b"k2", b"v2", 3, 0),
    ]);
    let mut db = kv::open_at(config(MIB16), vec![(1, bytes)], 100).unwrap();
    assert_eq!(db.get_at(s("k"), 100), None);
    assert_eq!(db.get_at(s("k2"), 100), Some(s("v2")));
}

#[test]
fn replay_clear_at_the_tail_is_applied() {
    let bytes = log(&[record(b"k", b"v", 1, 0), record(b"", b"", 2, 3)]);
    let mut db = kv::open_at(config(MIB16), vec![(1, bytes)], 100).unwrap();
    assert_eq!(db.get_at(s("k"), 100), None);
}

#[test]
fn replay_clear_also_drops_deadlines() {
    let bytes = log(&[
        record(b"k", b"v", 150, 1),
        record(b"", b"", 2, 3),
        record(b"k", b"again", 3, 0),
    ]);
    let mut db = kv::open_at(config(MIB16), vec![(1, bytes)], 100).unwrap();
    assert_eq!(db.get_at(s("k"), 200), Some(s("again")));
}

#[test]
fn replay_delete_removes_the_key() {
    let bytes = log(&[
        record(b"a", b"1", 1, 0),
        record(b"b", b"2", 1, 0),
        record(b"a", b"", 2, 2),
        record(b"missing", b"", 2, 2),
    ]);
    let mut db = kv::open_at(config(MIB16), vec![(1, bytes)], 100).unwrap();
    assert_eq!(db.get_at(s("a"), 100), None);
    assert_eq!(db.get_at(s("b"), 100), Some(s("2")));
}

#[test]
fn replay_delete_at_the_tail_is_applied() {
    let bytes = log(&[record(b"a", b"1", 1, 0), record(b"a", b"", 2, 2)]);
    let mut db = kv::open_at(config(MIB16), vec![(1, bytes)], 100).unwrap();
    assert_eq!(db.get_at(s("a"), 100), None);
}

#[test]
fn replay_records_a_deadline_only_while_it_lies_ahead() {
    let bytes = log(&[record(b"soon", b"v", 150, 1), record(b"past", b"w", 50, 1)]);
    let mut db = kv::open_at(config(MIB16), vec![(1, bytes.clone())], 100).unwrap();
    assert!(db.check_expired_at(&s("soon"), 150));
    assert!(!db.check_expired_at(&s("soon"), 151));
    assert!(db.check_expired_at(&s("past"), u64::MAX));
    assert_eq!(db.get_at(s("past"), 1_000_000), Some(s("w")));
    assert_eq!(db.get_at(s("soon"), 150), Some(s("v")));
    assert_eq!(db.get_at(s("soon"), 151), None);
    assert_eq!(db.get_at(s("soon"), 0), None);
    let mut at_deadline = kv::open_at(config(MIB16), vec![(1, bytes)], 150).unwrap();
    assert_eq!(at_deadline.get_at(s("soon"), 1_000_000), Some(s("v")));
}

#[test]
fn replay_skips_records_that_break_the_length_rule() {
    let long_key = vec![b'k'; 101];
    let long_value = vec![b'v'; 101];
    let bytes = log(&[
        record(b"ok", b"1", 1, 0),
        record(&long_key, b"x", 1, 0),
        record(b"big", &long_value, 1, 0),
        record(b"", b"x", 1, 0),
        record(b"", b"", 1, 2),
        record(b"later", b"2", 1, 0),
    ]);
    let mut db = kv::open_at(config(MIB16), vec![(1, bytes)], 100).unwrap();
    assert_eq!(db.get_at(s("ok"), 100), Some(s("1")));
    assert_eq!(db.get_at(s("big"), 100), None);
    assert_eq!(db.get_at(s("later"), 100), Some(s("2")));
}

#[test]
fn replay_skips_records_that_are_not_text() {
    let bytes = log(&[
        record(&[0xff, 0xfe], b"bad key", 1, 0),
        record(b"bad value", &[0xc3, 0x28], 1, 0),
        record(b"expiring", &[0x80], 500, 1),
        record(b"good", "grüße".as_bytes(), 1, 0),
        record("schlüssel".as_bytes(), b"v", 1, 0),
    ]);
    let mut db = kv::open_at(config(MIB16), vec![(1, bytes)], 100).unwrap();
    assert_eq!(db.get_at(s("bad value"), 100), None);
    assert_eq!(db.get_at(s("expiring"), 100), None);
    assert_eq!(db.get_at(s("good"), 100), Some(s("grüße")));
    assert_eq!(db.get_at(s("schlüssel"), 100), Some(s("v")));
}

#[test]
fn replay_skips_marks_it_does_not_know() {
    let bytes = log(&[
        record(b"a", b"1", 1, 0),
        record(b"a", b"2", 1, 4),
        record(b"b", b"3", 1, 255),
    ]);
    let mut db = kv::open_at(config(MIB16), vec![(1, bytes)], 100).unwrap();
    assert_eq!(db.get_at(s("a"), 100), Some(s("1")));
    assert_eq!(db.get_at(s("b"), 100), None);
}

#[test]
fn replay_reads_only_the_low_byte_as_mark() {
    let entry = Entry::new_with_expire(b"a".to_vec(), b"1".to_vec(), 1, 0x7f, 0);
    let bytes = entry.encode().unwrap();
    let mut db = kv::open_at(config(MIB16), vec![(1, bytes)], 100).unwrap();
    assert_eq!(db.get_at(s("a"), 100), Some(s("1")));
}

#[test]
fn replay_twice_gives_the_same_index() {
    let bytes = log(&[
        record(b"a", b"1", 1, 0),
        record(b"b", b"2", 500, 1),
        record(b"a", b"", 2, 2),
        record(b"c", b"3", 3, 0),
    ]);
    let mut first = kv::open_at(config(MIB16), vec![(1, bytes.clone())], 100).unwrap();
    let mut second = kv::open_at(config(MIB16), vec![(1, bytes.clone())], 100).unwrap();
    let mut later = kv::open_at(config(MIB16), vec![(1, bytes)], 9_999).unwrap();
    for key in ["a", "b", "c", "d"] {
        let found = first.get_at(s(key), 100);
        assert_eq!(found, second.get_at(s(key), 100));
        assert_eq!(found, later.get_at(s(key), 100));
    }
    assert_eq!(first.get_at(s("b"), 100), Some(s("2")));
    assert_eq!(first.get_at(s("a"), 100), None);
}

#[test]
fn replay_drops_a_truncated_tail() {
    let whole = log(&[
        record(b"a", b"1", 1, 0),
        record(b"b", b"2", 2, 0),
        record(b"c", b"3", 3, 0),
    ]);
    let complete = 2 * 24;
    for cut in complete..whole.len() {
        let mut db = kv::open_at(config(MIB16), vec![(1, whole[..cut].to_vec())], 100).unwrap();
        assert_eq!(db.get_at(s("a"), 100), Some(s("1")));
        assert_eq!(db.get_at(s("b"), 100), Some(s("2")));
        assert_eq!(db.get_at(s("c"), 100), None);
        assert_eq!(db.active_file().offset() as usize, cut);
    }
}

#[test]
fn replay_stops_at_corruption_and_goes_on_with_the_next_segment() {
    let mut damaged = log(&[
        record(b"a", b"1", 1, 0),
        record(b"b", b"2", 2, 0),
        record(b"c", b"3", 3, 0),
    ]);
    damaged[24 + 23] ^= 0xff;
    let next = log(&[record(b"d", b"4", 4, 0)]);
    let mut db = kv::open_at(config(MIB16), vec![(1, damaged), (2, next)], 100).unwrap();
    assert_eq!(db.get_at(s("a"), 100), Some(s("1")));
    assert_eq!(db.get_at(s("b"), 100), None);
    assert_eq!(db.get_at(s("c"), 100), None);
    assert_eq!(db.get_at(s("d"), 100), Some(s("4")));
}

#[test]
fn set_then_get() {
    let mut db = kv::open_at(config(MIB16), vec![], 100).unwrap();
    assert!(db.set_at(s("a"), s("b"), 100));
    assert_eq!(db.get_at(s("a"), 100), Some(s("b")));
    assert!(db.set_at(s("a"), s("c"), 101));
    assert_eq!(db.get_at(s("a"), 101), Some(s("c")));
    assert_eq!(db.get_at(s("other"), 101), None);
}

#[test]
fn set_appends_its_record() {
    let mut db = kv::open_at(config(MIB16), vec![], 100).unwrap();
    db.take_journal();
    assert!(db.set_at(s("a"), s("b"), 123));
    assert_eq!(db.active_file().bytes(), &record(b"a", b"b", 123, 0));
    assert_eq!(db.active_file().offset(), 24);
    let ops = db.take_journal();
    assert_eq!(ops.len(), 1);
    match &ops[0] {
        DiskOp::Append { id, bytes } => {
            assert_eq!(*id, 1);
            assert_eq!(bytes, &record(b"a", b"b", 123, 0));
        },
        _ => panic!("expected an append"),
    }
}

#[test]
fn set_with_expire_appends_the_deadline_as_time_stamp() {
    let mut db = kv::open_at(config(MIB16), vec![], 100).unwrap();
    assert!(db.set_with_expire(s("a"), s("b"), 777));
    assert_eq!(db.active_file().bytes(), &record(b"a", b"b", 777, 1));
    let entry = db.active_file().read(0).unwrap();
    assert_eq!(entry.time_stamp, 777);
    assert_eq!(entry.get_mark(), 1);
}

#[test]
fn delete_appends_a_tombstone() {
    let mut db = kv::open_at(config(MIB16), vec![], 100).unwrap();
    assert!(db.set_at(s("a"), s("b"), 1));
    assert!(db.delete_at(s("a"), 2));
    assert_eq!(db.get_at(s("a"), 2), None);
    assert_eq!(db.active_file().bytes(), &log(&[record(b"a", b"b", 1, 0), record(b"a", b"", 2, 2)]));
    assert!(db.delete_at(s("never set"), 3));
    assert_eq!(db.active_file().offset(), 24 + 23 + 31);
}

#[test]
fn delete_removes_the_deadline() {
    let mut db = kv::open_at(config(MIB16), vec![], 100).unwrap();
    assert!(db.set_with_expire(s("a"), s("b"), 150));
    assert!(db.delete_at(s("a"), 100));
    assert!(db.check_expired_at(&s("a"), 1_000));
    assert!(db.set_at(s("a"), s("c"), 100));
    assert_eq!(db.get_at(s("a"), 1_000), Some(s("c")));
}

#[test]
fn clear_appends_one_empty_record() {
    let mut db = kv::open_at(config(MIB16), vec![], 100).unwrap();
    assert!(db.set_at(s("a"), s("b"), 1));
    assert!(db.set_with_expire(s("c"), s("d"), 1_000));
    assert!(db.clear_at(5));
    assert_eq!(db.get_at(s("a"), 5), None);
    assert_eq!(db.get_at(s("c"), 5), None);
    assert!(db.check_expired_at(&s("c"), 2_000));
    assert_eq!(
        db.active_file().bytes(),
        &log(&[record(b"a", b"b", 1, 0), record(b"c", b"d", 1_000, 1), record(b"", b"", 5, 3)])
    );
    assert!(db.set_at(s("a"), s("again"), 6));
    assert_eq!(db.get_at(s("a"), 6), Some(s("again")));
}

#[test]
fn plain_set_keeps_an_earlier_deadline() {
    let mut db = kv::open_at(config(MIB16), vec![], 100).unwrap();
    assert!(db.set_with_expire(s("a"), s("b"), 150));
    assert!(db.set_at(s("a"), s("c"), 100));
    assert_eq!(db.get_at(s("a"), 150), Some(s("c")));
    assert_eq!(db.get_at(s("a"), 151), None);
}

#[test]
fn expired_key_reads_absent_and_leaves_the_index() {
    let now = 1_000;
    let mut db = kv::open_at(config(MIB16), vec![], now).unwrap();
    assert!(db.set_with_expire(s("k"), s("v"), now - 1));
    let length = db.active_file().offset();
    assert_eq!(db.get_at(s("k"), now), None);
    assert_eq!(db.active_file().offset(), length);
    assert_eq!(db.get_at(s("k"), 0), None);
    assert!(db.check_expired_at(&s("k"), now));
    let bytes = db.active_file().bytes().clone();
    let mut replayed = kv::open_at(config(MIB16), vec![(1, bytes)], now).unwrap();
    assert_eq!(replayed.get_at(s("k"), now), Some(s("v")));
}

#[test]
fn a_key_is_good_up_to_its_deadline() {
    let mut db = kv::open_at(config(MIB16), vec![], 100).unwrap();
    assert!(db.set_with_expire(s("k"), s("v"), 200));
    assert!(db.check_expired_at(&s("k"), 199));
    assert!(db.check_expired_at(&s("k"), 200));
    assert!(!db.check_expired_at(&s("k"), 201));
    assert!(db.check_expired_at(&s("no deadline"), u64::MAX));
    assert_eq!(db.get_at(s("k"), 200), Some(s("v")));
    assert_eq!(db.get_at(s("k"), 201), None);
}

#[test]
fn check_expired_reads_the_clock() {
    let mut db = kv::open_at(config(MIB16), vec![], 0).unwrap();
    assert!(db.set_with_expire(s("past"), s("v"), 1));
    assert!(db.set_with_expire(s("ahead"), s("v"), u64::MAX));
    assert!(!db.check_expired(&s("past")));
    assert!(db.check_expired(&s("ahead")));
    assert!(db.check_expired(&s("none")));
}

#[test]
fn invalid_requests_change_nothing() {
    let mut db = kv::open_at(config(MIB16), vec![], 100).unwrap();
    assert!(db.set_at(s("keep"), s("me"), 100));
    db.take_journal();
    let before = db.active_file().bytes().clone();
    let long = "x".repeat(101);
    assert!(!db.set_at(s(""), s("v"), 100));
    assert!(!db.set_at(long.clone(), s("v"), 100));
    assert!(!db.set_at(s("k"), long.clone(), 100));
    assert!(!db.set(s(""), s("v")));
    assert!(!db.set_with_expire(s(""), s("v"), 1_000));
    assert!(!db.set_with_expire(long.clone(), s("v"), 1_000));
    assert!(!db.set_with_expire(s("k"), long.clone(), 1_000));
    assert!(!db.delete_at(s(""), 100));
    assert!(!db.delete_at(long.clone(), 100));
    assert!(!db.delete(s("")));
    assert_eq!(db.get_at(s(""), 100), None);
    assert_eq!(db.get_at(long, 100), None);
    assert_eq!(db.active_file().bytes(), &before);
    assert_eq!(db.active_file().id(), 1);
    assert!(db.arch_files().is_empty());
    assert!(db.take_journal().is_empty());
    assert_eq!(db.get_at(s("keep"), 100), Some(s("me")));
    assert_eq!(db.get_at(s("k"), 100), None);
}

#[test]
fn longest_key_and_value_are_accepted() {
    let mut db = kv::open_at(config(MIB16), vec![], 100).unwrap();
    let key = "k".repeat(100);
    let value = "v".repeat(100);
    assert!(db.set_at(key.clone(), value.clone(), 100));
    assert_eq!(db.get_at(key.clone(), 100), Some(value));
    assert_eq!(db.active_file().offset(), 222);
    assert!(db.set_at(s("empty value"), s(""), 100));
    assert_eq!(db.get_at(s("empty value"), 100), Some(s("")));
    assert!(db.delete_at(key.clone(), 100));
    assert_eq!(db.get_at(key, 100), None);
}

#[test]
fn rotation_starts_the_next_segment() {
    let mut db = kv::open_at(config(40), vec![], 100).unwrap();
    let mut disk = BTreeMap::new();
    save(&mut db, &mut disk);
    assert!(db.set_at(s("a"), s("1"), 1));
    assert_eq!(db.active_file().id(), 1);
    assert_eq!(db.active_file().offset(), 24);
    assert!(db.set_at(s("b"), s("2"), 2));
    assert_eq!(db.active_file().id(), 1);
    assert_eq!(db.active_file().offset(), 48);
    assert!(db.arch_files().is_empty());
    save(&mut db, &mut disk);
    assert!(db.set_at(s("c"), s("3"), 3));
    assert_eq!(db.active_file().id(), 2);
    assert_eq!(db.active_file().offset(), 24);
    assert_eq!(db.active_file().bytes(), &record(b"c", b"3", 3, 0));
    assert_eq!(db.arch_files().len(), 1);
    assert_eq!(db.arch_files()[0].id(), 1);
    assert!(!db.arch_files()[0].is_open());
    assert_eq!(db.arch_files()[0].bytes(), &log(&[record(b"a", b"1", 1, 0), record(b"b", b"2", 2, 0)]));
    let ops = db.take_journal();
    assert_eq!(ops.len(), 3);
    assert!(matches!(ops[0], DiskOp::Sync { id: 1 }));
    assert!(matches!(ops[1], DiskOp::Create { id: 2 }));
    assert!(matches!(&ops[2], DiskOp::Append { id: 2, bytes } if bytes == &record(b"c", b"3", 3, 0)));
    assert_eq!(db.get_at(s("a"), 3), Some(s("1")));
    assert_eq!(db.get_at(s("b"), 3), Some(s("2")));
    assert_eq!(db.get_at(s("c"), 3), Some(s("3")));
}

#[test]
fn rotation_is_checked_before_the_write() {
    let mut db = kv::open_at(config(24), vec![], 100).unwrap();
    assert!(db.set_at(s("a"), s("1"), 1));
    assert_eq!(db.active_file().offset(), 24);
    assert!(db.set_at(s("b"), s("2"), 2));
    assert_eq!(db.active_file().id(), 1);
    assert_eq!(db.active_file().offset(), 48);
    assert!(db.set_at(s("c"), s("3"), 3));
    assert_eq!(db.active_file().id(), 2);
}

#[test]
fn everything_written_replays_after_rotation() {
    let mut db = kv::open_at(config(100), vec![], 0).unwrap();
    let mut disk = BTreeMap::new();
    for i in 0..50u64 {
        assert!(db.set_at(format!("key{}", i % 7), format!("value{}", i), i));
        if i % 5 == 0 {
            assert!(db.delete_at(format!("key{}", i % 3), i));
        }
        if i % 4 == 0 {
            save(&mut db, &mut disk);
        }
    }
    save(&mut db, &mut disk);
    assert!(db.active_file().id() > 5);
    assert_eq!(db.arch_files().len() as u32, db.active_file().id() - 1);
    assert_eq!(disk, in_memory(&db));
    let mut reopened = kv::open_at(config(100), segments(&disk), 1_000).unwrap();
    assert_eq!(reopened.active_file().id(), db.active_file().id());
    for i in 0..7 {
        let key = format!("key{}", i);
        assert_eq!(reopened.get_at(key.clone(), 1_000), db.get_at(key, 1_000));
    }
    assert_eq!(db.get_at(s("key0"), 1_000), Some(s("value49")));
    assert_eq!(db.get_at(s("key6"), 1_000), Some(s("value48")));
}

#[test]
fn journal_brings_the_files_up_to_date() {
    let mut db = kv::open_at(config(60), vec![], 0).unwrap();
    let mut disk = BTreeMap::new();
    save(&mut db, &mut disk);
    assert_eq!(disk, in_memory(&db));
    assert!(db.set_at(s("a"), s("1"), 1));
    assert!(db.set_with_expire(s("b"), s("2"), 99));
    assert!(db.set_at(s("c"), s("3"), 3));
    assert!(db.clear_at(4));
    assert!(db.set_at(s("d"), s("4"), 5));
    assert_ne!(disk, in_memory(&db));
    save(&mut db, &mut disk);
    assert_eq!(disk, in_memory(&db));
    db.close();
    save(&mut db, &mut disk);
    assert_eq!(disk, in_memory(&db));
    assert!(disk.len() >= 2);
}

#[test]
fn close_flushes_open_segments_and_ends_writes() {
    let one = log(&[record(b"a", b"1", 1, 0)]);
    let two = log(&[record(b"b", b"2", 2, 0)]);
    let mut db = kv::open_at(config(MIB16), vec![(1, one), (2, two)], 100).unwrap();
    db.close();
    let ops = db.take_journal();
    assert_eq!(ops.len(), 2);
    assert!(matches!(ops[0], DiskOp::Sync { id: 1 }));
    assert!(matches!(ops[1], DiskOp::Sync { id: 2 }));
    assert!(!db.active_file().is_open());
    assert!(!db.arch_files()[0].is_open());
    assert!(!db.set_at(s("c"), s("3"), 100));
    assert!(!db.set_with_expire(s("c"), s("3"), 1_000));
    assert!(!db.delete_at(s("a"), 100));
    assert!(!db.clear_at(100));
    assert_eq!(db.get_at(s("a"), 100), Some(s("1")));
    assert_eq!(db.get_at(s("b"), 100), Some(s("2")));
    assert_eq!(db.get_at(s("c"), 100), None);
    db.close();
    assert!(db.take_journal().is_empty());
}

#[test]
fn store_entry_refuses_what_the_log_cannot_take() {
    let mut db = kv::open_at(config(MIB16), vec![], 100).unwrap();
    let mut invalid = Entry::new_with_expire(b"a".to_vec(), b"b".to_vec(), 1, 0, 0);
    invalid.valid = false;
    assert!(!db.store_entry(invalid));
    let mut mismatched = Entry::new_with_expire(b"a".to_vec(), b"b".to_vec(), 1, 0, 0);
    mismatched.value_size = 9;
    assert!(!db.store_entry(mismatched));
    assert_eq!(db.active_file().offset(), 0);
    assert!(db.store_entry(Entry::new_with_expire(b"a".to_vec(), b"b".to_vec(), 1, 0, 0)));
    assert_eq!(db.active_file().offset(), 24);
    assert_eq!(db.get_at(s("a"), 100), None);
}

#[test]
fn rotation_is_refused_at_the_last_segment_number() {
    let bytes = log(&[record(b"a", b"1", 1, 0)]);
    let mut db = kv::open_at(config(10), vec![(u32::MAX, bytes.clone())], 100).unwrap();
    assert_eq!(db.active_file().id(), u32::MAX);
    assert!(!db.set_at(s("b"), s("2"), 2));
    assert_eq!(db.get_at(s("b"), 2), None);
    assert_eq!(db.active_file().bytes(), &bytes);
    assert!(db.take_journal().is_empty());
}

#[test]
fn build_entry_applies_one_record() {
    let mut db = kv::open_at(config(MIB16), vec![], 100).unwrap();
    db.build_entry_at(Entry::new_with_expire(b"a".to_vec(), b"1".to_vec(), 1, 0, 0), 100);
    assert_eq!(db.get_at(s("a"), 100), Some(s("1")));
    db.build_entry_at(Entry::new_with_expire(b"b".to_vec(), b"2".to_vec(), 150, 0, 1), 100);
    assert_eq!(db.get_at(s("b"), 150), Some(s("2")));
    assert!(!db.check_expired_at(&s("b"), 151));
    db.build_entry_at(Entry::new_with_expire(b"a".to_vec(), vec![], 1, 0, 2), 100);
    assert_eq!(db.get_at(s("a"), 100), None);
    let mut unmarked = Entry::new_with_expire(b"c".to_vec(), b"3".to_vec(), 1, 0, 0);
    unmarked.valid = false;
    db.build_entry_at(unmarked, 100);
    assert_eq!(db.get_at(s("c"), 100), None);
    db.build_entry(Entry::new_with_expire(b"d".to_vec(), b"4".to_vec(), u64::MAX, 0, 1));
    assert_eq!(db.get(s("d")), Some(s("4")));
    db.build_entry_at(Entry::new_with_expire(vec![], vec![], 1, 0, 3), 100);
    assert_eq!(db.get_at(s("b"), 100), None);
    assert_eq!(db.active_file().offset(), 0);
}

#[test]
fn build_index_replays_on_top_of_the_index() {
    let bytes = log(&[record(b"a", b"logged", 1, 0)]);
    let mut db = kv::open_at(config(MIB16), vec![(1, bytes)], 100).unwrap();
    db.build_entry_at(Entry::new_with_expire(b"a".to_vec(), b"other".to_vec(), 1, 0, 0), 100);
    db.build_entry_at(Entry::new_with_expire(b"b".to_vec(), b"extra".to_vec(), 1, 0, 0), 100);
    db.build_index_at(100);
    assert_eq!(db.get_at(s("a"), 100), Some(s("logged")));
    assert_eq!(db.get_at(s("b"), 100), Some(s("extra")));
    db.build_index();
    assert_eq!(db.get(s("a")), Some(s("logged")));
}

#[test]
fn end_to_end_on_a_fresh_directory() {
    let now = std::time::SystemTime::now()
        .duration_since(std::time::UNIX_EPOCH)
        .unwrap()
        .as_secs();
    let mut disk = BTreeMap::new();
    let mut db = kv::open(config(MIB16), segments(&disk)).unwrap();
    save(&mut db, &mut disk);
    assert_eq!(disk.keys().copied().collect::<Vec<u32>>(), vec![1]);
    assert!(disk[&1].is_empty());
    assert!(db.set(s("a"), s("b")));
    assert_eq!(db.get(s("a")), Some(s("b")));
    assert!(db.set_with_expire(s("c"), s("d"), now - 1));
    assert_eq!(db.get(s("c")), None);
    assert!(db.clear());
    assert_eq!(db.get(s("a")), None);
    assert!(db.set(s("e"), s("f")));
    assert!(db.delete(s("e")));
    assert_eq!(db.get(s("e")), None);
    assert!(db.set(s("g"), s("h")));
    db.close();
    save(&mut db, &mut disk);
    let mut reopened = kv::open(config(MIB16), segments(&disk)).unwrap();
    assert_eq!(reopened.get(s("a")), None);
    assert_eq!(reopened.get(s("c")), None);
    assert_eq!(reopened.get(s("e")), None);
    assert_eq!(reopened.get(s("g")), Some(s("h")));
    assert_eq!(reopened.active_file().id(), 1);
    assert_eq!(reopened.active_file().offset() as usize, disk[&1].len());
}
