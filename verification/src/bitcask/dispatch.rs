//! The requests that reach the engine and the reply each one gets.
//!
//! Callers may be many; the engine has one owner, which takes the requests
//! one at a time, in the order in which they arrive, and gives every
//! request exactly one reply.

use crate::bitcask::kv::kv;
use crate::bitcask::model::KvView;
use crate::bitcask::utils::time_routine::time_now;
use vstd::prelude::*;

verus! {

/// A request to the engine.
pub enum Operation {
    /// Read the value of `key`.
    Get { key: String },
    /// Give `key` the value `value`.
    SetValue { key: String, value: String },
    /// Give `key` the value `value` until `deadline`, in seconds since the
    /// Unix epoch.
    SetWithExpire { key: String, value: String, deadline: u64 },
    /// Remove `key`.
    Delete { key: String },
    /// Remove every key.
    Clear,
    /// Close every segment. This is the last request that is served.
    Close,
}

/// The mathematical content of an [`Operation`].
pub ghost enum OperationView {
    Get { key: Seq<char> },
    SetValue { key: Seq<char>, value: Seq<char> },
    SetWithExpire { key: Seq<char>, value: Seq<char>, deadline: u64 },
    Delete { key: Seq<char> },
    Clear,
    Close,
}

impl View for Operation {
    type V = OperationView;

    open spec fn view(&self) -> OperationView {
        match self {
            Operation::Get { key } => OperationView::Get { key: key@ },
            Operation::SetValue { key, value } => OperationView::SetValue { key: key@, value: value@ },
            Operation::SetWithExpire { key, value, deadline } => OperationView::SetWithExpire {
                key: key@,
                value: value@,
                deadline: *deadline,
            },
            Operation::Delete { key } => OperationView::Delete { key: key@ },
            Operation::Clear => OperationView::Clear,
            Operation::Close => OperationView::Close,
        }
    }
}

/// The reply to a request: whether it succeeded, and the value read, which
/// is empty for every request but a read that found its key.
pub struct Reply {
    pub status: bool,
    pub data: String,
}

/// The reply to a request served at time `now`, as status and data, and
/// the engine afterwards.
pub open spec fn served(engine: KvView, operation: OperationView, now: u64) -> (bool, Seq<char>, KvView) {
    match operation {
        OperationView::Get { key } => match engine.spec_get(key, now).0 {
            Some(value) => (true, value, engine.spec_get(key, now).1),
            None => (false, Seq::empty(), engine.spec_get(key, now).1),
        },
        OperationView::SetValue { key, value } => (
            engine.spec_set(key, value, now).0,
            Seq::empty(),
            engine.spec_set(key, value, now).1,
        ),
        OperationView::SetWithExpire { key, value, deadline } => (
            engine.spec_set_with_expire(key, value, deadline).0,
            Seq::empty(),
            engine.spec_set_with_expire(key, value, deadline).1,
        ),
        OperationView::Delete { key } => (
            engine.spec_delete(key, now).0,
            Seq::empty(),
            engine.spec_delete(key, now).1,
        ),
        OperationView::Clear => (engine.spec_clear(now).0, Seq::empty(), engine.spec_clear(now).1),
        OperationView::Close => (true, Seq::empty(), engine.spec_close()),
    }
}

impl Operation {
    /// Whether this request ends the service: no request is served after
    /// it.
    pub fn is_last(&self) -> (last: bool)
        ensures
            last == (self@ is Close),
    {
        match self {
            Operation::Close => true,
            _ => false,
        }
    }
}

/// Serves one request at time `now`.
pub fn serve_at(db: &mut kv, operation: Operation, now: u64) -> (reply: Reply)
    requires
        old(db).wf(),
    ensures
        final(db).wf(),
        (reply.status, reply.data@, final(db)@) == served(old(db)@, operation@, now),
{
    match operation {
        Operation::Get { key } => match db.get_at(key, now) {
            Some(value) => Reply { status: true, data: value },
            None => Reply { status: false, data: String::new() },
        },
        Operation::SetValue { key, value } => Reply { status: db.set_at(key, value, now), data: String::new() },
        Operation::SetWithExpire { key, value, deadline } => Reply {
            status: db.set_with_expire(key, value, deadline),
            data: String::new(),
        },
        Operation::Delete { key } => Reply { status: db.delete_at(key, now), data: String::new() },
        Operation::Clear => Reply { status: db.clear_at(now), data: String::new() },
        Operation::Close => {
            db.close();
            Reply { status: true, data: String::new() }
        },
    }
}

/// Serves one request by the clock.
pub fn serve(db: &mut kv, operation: Operation) -> (reply: Reply)
    requires
        old(db).wf(),
    ensures
        final(db).wf(),
        exists|now: u64|
            (reply.status, reply.data@, final(db)@) == #[trigger] served(old(db)@, operation@, now),
{
    let now = time_now();
    serve_at(db, operation, now)
}

/// Once the engine is closed, every request that writes is refused and
/// changes nothing; closing again changes nothing either.
pub proof fn closed_engine_takes_no_writes(engine: KvView, operation: OperationView, now: u64)
    requires
        !engine.active.open,
        !(operation is Get),
        !(operation is Close),
    ensures
        served(engine, operation, now) == (false, Seq::<char>::empty(), engine),
{
}

/// After a close, the engine's active segment is closed.
pub proof fn close_closes(engine: KvView, now: u64)
    ensures
        !served(engine, OperationView::Close, now).2.active.open,
        served(engine, OperationView::Close, now).2.index == engine.index,
{
}

} // verus!
