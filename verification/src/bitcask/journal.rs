//! The steps that bring the files of a directory up to date with the
//! engine, and what they do to the files.

use vstd::prelude::*;

verus! {

/// One step that brings the files of the directory up to date with the
/// engine. Whoever embeds the engine performs the steps in order.
pub enum DiskOp {
    /// Create the empty file of segment `id`.
    Create { id: u32 },
    /// Append `bytes` to the file of segment `id`.
    Append { id: u32, bytes: Vec<u8> },
    /// Flush the file of segment `id` to stable storage and let go of it.
    Sync { id: u32 },
}

/// The mathematical content of a [`DiskOp`].
pub ghost enum DiskOpView {
    Create { id: u32 },
    Append { id: u32, bytes: Seq<u8> },
    Sync { id: u32 },
}

impl View for DiskOp {
    type V = DiskOpView;

    open spec fn view(&self) -> DiskOpView {
        match self {
            DiskOp::Create { id } => DiskOpView::Create { id: *id },
            DiskOp::Append { id, bytes } => DiskOpView::Append { id: *id, bytes: bytes@ },
            DiskOp::Sync { id } => DiskOpView::Sync { id: *id },
        }
    }
}

/// The files of a directory: the contents of each segment file, by number.
pub type Disk = Map<u32, Seq<u8>>;

/// The directory after one step.
pub open spec fn perform(disk: Disk, op: DiskOpView) -> Disk {
    match op {
        DiskOpView::Create { id } => disk.insert(id, Seq::empty()),
        DiskOpView::Append { id, bytes } => disk.insert(
            id,
            if disk.contains_key(id) {
                disk[id] + bytes
            } else {
                bytes
            },
        ),
        DiskOpView::Sync { id } => disk,
    }
}

/// The directory after the steps `ops`, performed in order.
pub open spec fn perform_all(disk: Disk, ops: Seq<DiskOpView>) -> Disk
    decreases ops.len(),
{
    if ops.len() == 0 {
        disk
    } else {
        perform(perform_all(disk, ops.drop_last()), ops.last())
    }
}

/// The views of `ops`, in order.
pub open spec fn op_views(ops: Seq<DiskOp>) -> Seq<DiskOpView> {
    ops.map_values(|op: DiskOp| op@)
}

/// Steps that only flush change no file.
pub proof fn syncs_change_nothing(disk: Disk, ops: Seq<DiskOpView>, syncs: Seq<DiskOpView>)
    requires
        forall|i: int| 0 <= i < syncs.len() ==> (#[trigger] syncs[i]) is Sync,
    ensures
        perform_all(disk, ops + syncs) == perform_all(disk, ops),
    decreases syncs.len(),
{
    if syncs.len() == 0 {
        assert(ops + syncs =~= ops);
    } else {
        syncs_change_nothing(disk, ops, syncs.drop_last());
        assert((ops + syncs).drop_last() =~= ops + syncs.drop_last());
        assert((ops + syncs).last() == syncs.last());
    }
}

} // verus!
