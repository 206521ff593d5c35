use minis::bitcask::kv::build;
use minis::bitcask::segment_name::contains_data_mark;
use minis::bitcask::segment_name::parse_stem;
use minis::bitcask::segment_name::stem_len;

fn names(list: &[&str]) -> Vec<String> {
    list.iter().map(|name| name.to_string()).collect()
}

#[test]
fn data_mark_is_found_anywhere() {
    assert!(contains_data_mark("1.data"));
    assert!(contains_data_mark(".data"));
    assert!(contains_data_mark("12.database"));
    assert!(contains_data_mark("x.y.data.old"));
    assert!(!contains_data_mark(""));
    assert!(!contains_data_mark("data"));
    assert!(!contains_data_mark("1.dat"));
    assert!(!contains_data_mark("1.DATA"));
    assert!(!contains_data_mark("1.d.ata"));
    assert!(contains_data_mark("ü.data"));
}

#[test]
fn stem_ends_at_the_first_dot() {
    assert_eq!(stem_len("12.data"), 2);
    assert_eq!(stem_len(".data"), 0);
    assert_eq!(stem_len("nodot"), 5);
    assert_eq!(stem_len(""), 0);
    assert_eq!(stem_len("1.2.data"), 1);
    assert_eq!(stem_len("üü.data"), 2);
}

#[test]
fn stem_parses_as_a_32_bit_decimal() {
    assert_eq!(parse_stem("0.data", 1), Some(0));
    assert_eq!(parse_stem("7.data", 1), Some(7));
    assert_eq!(parse_stem("007.data", 3), Some(7));
    assert_eq!(parse_stem("+5.data", 2), Some(5));
    assert_eq!(parse_stem("4294967295.data", 10), Some(4294967295));
    assert_eq!(parse_stem("4294967296.data", 10), None);
    assert_eq!(parse_stem("99999999999.data", 11), None);
    assert_eq!(parse_stem(".data", 0), None);
    assert_eq!(parse_stem("+.data", 1), None);
    assert_eq!(parse_stem("-1.data", 2), None);
    assert_eq!(parse_stem("1a.data", 2), None);
    assert_eq!(parse_stem(" 1.data", 2), None);
    assert_eq!(parse_stem("1_0.data", 3), None);
    assert_eq!(parse_stem("12.data", 1), Some(1));
}

#[test]
fn build_collects_the_segment_numbers_in_order() {
    assert_eq!(build(&names(&[])), Some(vec![]));
    assert_eq!(build(&names(&["1.data"])), Some(vec![1]));
    assert_eq!(build(&names(&["3.data", "1.data", "2.data"])), Some(vec![3, 1, 2]));
    assert_eq!(build(&names(&["10.data", "LOCK", "notes.txt", "2.data"])), Some(vec![10, 2]));
    assert_eq!(build(&names(&["1.data", "1.data.bak"])), Some(vec![1, 1]));
}

#[test]
fn build_fails_on_a_segment_name_without_a_number() {
    assert_eq!(build(&names(&["x.data"])), None);
    assert_eq!(build(&names(&["1.data", ".data"])), None);
    assert_eq!(build(&names(&["1.data", "4294967296.data", "2.data"])), None);
    assert_eq!(build(&names(&["backup.1.data"])), None);
}
