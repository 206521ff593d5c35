//! Putting segments in order: what holds of a list of segment files while
//! the segments of a directory are inserted into it one by one.

use crate::bitcask::model::all_in;
use crate::bitcask::model::all_open;
use crate::bitcask::model::ascending;
use crate::bitcask::model::covers;
use crate::bitcask::model::drawn_from;
use crate::bitcask::model::has_file;
use crate::bitcask::model::has_number;
use crate::bitcask::model::is_segment;
use crate::bitcask::model::loadable;
use crate::bitcask::model::loadable_from;
use crate::bitcask::storage::db_file::DBFileView;
use vstd::prelude::*;

verus! {

/// `pos` is the place of `file` among `before` by number: the files before
/// `pos` have lower numbers, the file at `pos`, if there is one, a higher.
pub open spec fn fits_at(before: Seq<DBFileView>, pos: int, file: DBFileView) -> bool {
    &&& 0 <= pos <= before.len()
    &&& forall|j: int| 0 <= j < pos ==> (#[trigger] before[j]).id < file.id
    &&& pos < before.len() ==> before[pos].id > file.id
}

/// A segment whose number one of the files already has makes the segments
/// unloadable.
pub proof fn duplicate_is_not_loadable(
    files: Seq<DBFileView>,
    segments: Seq<(u32, Vec<u8>)>,
    at: int,
    pos: int,
)
    requires
        0 <= at < segments.len(),
        0 <= pos < files.len(),
        drawn_from(files, segments, at + 1),
        files[pos].id == segments[at].0,
    ensures
        !loadable(segments),
{
    assert(has_number(segments, at + 1, files[pos].id));
    let i = choose|i: int| at + 1 <= i < segments.len() && (#[trigger] segments[i]).0 == files[pos].id;
    assert(segments[at].0 == segments[i].0);
}

/// Inserting a file at its place keeps the numbers ascending; no file had
/// its number before.
pub proof fn insert_keeps_ascending(before: Seq<DBFileView>, pos: int, file: DBFileView)
    requires
        ascending(before),
        fits_at(before, pos, file),
    ensures
        ascending(before.insert(pos, file)),
        forall|j: int| 0 <= j < before.len() ==> (#[trigger] before[j]).id != file.id,
{
    let after = before.insert(pos, file);
    assert forall|j: int| 0 <= j < before.len() implies (#[trigger] before[j]).id != file.id by {
        if j > pos {
            assert(before[pos].id < before[j].id);
        }
    }
    assert forall|j: int, k: int| 0 <= j < k < after.len() implies (#[trigger] after[j]).id < (
    #[trigger] after[k]).id by {
        if j < pos && k < pos {
            assert(before[j].id < before[k].id);
        } else if j < pos && k == pos {
            assert(before[j].id < file.id);
        } else if j < pos && k > pos {
            assert(before[j].id < before[k - 1].id);
        } else if j == pos {
            if k - 1 > pos {
                assert(before[pos].id < before[k - 1].id);
            }
        } else {
            assert(before[j - 1].id < before[k - 1].id);
        }
    }
}

/// Inserting an open file of the directory keeps the files open and in the
/// directory.
pub proof fn insert_keeps_open(before: Seq<DBFileView>, pos: int, file: DBFileView, path: Seq<char>)
    requires
        0 <= pos <= before.len(),
        all_open(before),
        all_in(before, path),
        file.open,
        file.path == path,
    ensures
        all_open(before.insert(pos, file)),
        all_in(before.insert(pos, file), path),
{
    let after = before.insert(pos, file);
    assert forall|j: int| 0 <= j < after.len() implies (#[trigger] after[j]).open by {
        if j < pos {
            assert(before[j].open);
        } else if j > pos {
            assert(before[j - 1].open);
        }
    }
    assert forall|j: int| 0 <= j < after.len() implies (#[trigger] after[j]).path == path by {
        if j < pos {
            assert(before[j].path == path);
        } else if j > pos {
            assert(before[j - 1].path == path);
        }
    }
}

proof fn insert_keeps_file(before: Seq<DBFileView>, pos: int, file: DBFileView, segment: (u32, Vec<u8>))
    requires
        0 <= pos <= before.len(),
        has_file(before, segment) || is_segment(file, segment),
    ensures
        has_file(before.insert(pos, file), segment),
{
    let after = before.insert(pos, file);
    if is_segment(file, segment) {
        assert(is_segment(after[pos], segment));
    } else {
        let j = choose|j: int| 0 <= j < before.len() && is_segment(#[trigger] before[j], segment);
        if j < pos {
            assert(is_segment(after[j], segment));
        } else {
            assert(is_segment(after[j + 1], segment));
        }
    }
}

/// After the file of one more segment is inserted, the files cover one
/// more segment.
pub proof fn insert_covers(
    before: Seq<DBFileView>,
    pos: int,
    file: DBFileView,
    segments: Seq<(u32, Vec<u8>)>,
    at: int,
)
    requires
        0 <= at < segments.len(),
        0 <= pos <= before.len(),
        covers(before, segments, at + 1),
        is_segment(file, segments[at]),
    ensures
        covers(before.insert(pos, file), segments, at),
{
    assert forall|i: int| at <= i < segments.len() implies has_file(
        before.insert(pos, file),
        #[trigger] segments[i],
    ) by {
        insert_keeps_file(before, pos, file, segments[i]);
    }
}

proof fn number_found_earlier(segments: Seq<(u32, Vec<u8>)>, at: int, id: u32)
    requires
        0 <= at < segments.len(),
        has_number(segments, at + 1, id) || segments[at].0 == id,
    ensures
        has_number(segments, at, id),
{
    if segments[at].0 != id {
        let i = choose|i: int| at + 1 <= i < segments.len() && (#[trigger] segments[i]).0 == id;
        assert(segments[i].0 == id);
    }
}

/// After the file of one more segment is inserted, every file still has
/// the number of a segment.
pub proof fn insert_is_drawn_from(
    before: Seq<DBFileView>,
    pos: int,
    file: DBFileView,
    segments: Seq<(u32, Vec<u8>)>,
    at: int,
)
    requires
        0 <= at < segments.len(),
        0 <= pos <= before.len(),
        drawn_from(before, segments, at + 1),
        file.id == segments[at].0,
    ensures
        drawn_from(before.insert(pos, file), segments, at),
{
    let after = before.insert(pos, file);
    assert forall|j: int| 0 <= j < after.len() implies has_number(segments, at, (#[trigger] after[j]).id) by {
        if j < pos {
            assert(has_number(segments, at + 1, before[j].id));
        } else if j > pos {
            assert(has_number(segments, at + 1, before[j - 1].id));
        }
        number_found_earlier(segments, at, after[j].id);
    }
}

/// One more segment, of a number that no file has and of a length that
/// fits, leaves the segments loadable.
pub proof fn one_more_is_loadable(
    before: Seq<DBFileView>,
    file: DBFileView,
    segments: Seq<(u32, Vec<u8>)>,
    at: int,
)
    requires
        0 <= at < segments.len(),
        covers(before, segments, at + 1),
        loadable_from(segments, at + 1),
        forall|j: int| 0 <= j < before.len() ==> (#[trigger] before[j]).id != file.id,
        is_segment(file, segments[at]),
        file.bytes.len() <= u32::MAX,
    ensures
        loadable_from(segments, at),
{
    assert forall|i: int, k: int| at <= i < k < segments.len() implies (#[trigger] segments[i]).0 != (
    #[trigger] segments[k]).0 by {
        if i == at {
            assert(has_file(before, segments[k]));
            let j = choose|j: int| 0 <= j < before.len() && is_segment(#[trigger] before[j], segments[k]);
            assert(before[j].id != file.id);
        }
    }
}

} // verus!
