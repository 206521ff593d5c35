//! A unit of work for a pool: code that runs once and stores its result,
//! and the job that pairs it with a latch.

use crate::rayon::latch::Latch;
use std::marker::PhantomData;
use std::sync::Arc;
use vstd::prelude::*;

verus! {

/// Something that can be run once.
pub trait Executable {
    /// Whether the work has run.
    spec fn spent(&self) -> bool;

    /// Runs the work, if it has not run yet.
    fn execute(&mut self)
        ensures
            final(self).spent(),
    ;
}

/// A closure whose precondition is known to hold, so that it can be called
/// at any later time.
#[verifier::reject_recursive_types(R)]
pub struct Ready<F, R> where F: FnOnce() -> R {
    func: F,
    result: PhantomData<R>,
}

impl<F, R> Ready<F, R> where F: FnOnce() -> R {
    #[verifier::type_invariant]
    spec fn callable(self) -> bool {
        call_requires(self.func, ())
    }

    /// The closure held.
    pub closed spec fn func(self) -> F {
        self.func
    }

    /// Holds `func`, which may be called as it is.
    pub fn new(func: F) -> (ready: Ready<F, R>)
        requires
            call_requires(func, ()),
        ensures
            ready.func() == func,
    {
        Ready { func, result: PhantomData }
    }

    /// Calls the closure.
    pub fn run(self) -> (value: R)
        ensures
            call_ensures(self.func(), (), value),
    {
        proof {
            use_type_invariant(&self);
        }
        (self.func)()
    }
}

/// A closure together with the place where its result goes.
#[verifier::reject_recursive_types(R)]
pub struct Code<'a, F, R> where F: FnOnce() -> R {
    pub func: Option<Ready<F, R>>,
    pub dest: &'a mut Option<R>,
}

impl<'a, F, R> Code<'a, F, R> where F: FnOnce() -> R {
    /// Code that will run `func` and store its result in `dest`.
    pub fn new(func: F, dest: &'a mut Option<R>) -> (code: Code<'a, F, R>)
        requires
            call_requires(func, ()),
        ensures
            code.func matches Some(ready) && ready.func() == func,
            *code.dest == *old(dest),
            *final(code.dest) == *final(dest),
    {
        Code { func: Some(Ready::new(func)), dest }
    }
}

impl<'a, F, R> Executable for Code<'a, F, R> where F: FnOnce() -> R {
    open spec fn spent(&self) -> bool {
        self.func is None
    }

    /// Runs the closure and stores its result in the destination, which
    /// stays the same place. Code that has run already does nothing.
    fn execute(&mut self)
        ensures
            final(self).func is None,
            *final(final(self).dest) == *final(old(self).dest),
            match old(self).func {
                Some(ready) => *final(self).dest matches Some(value) && call_ensures(
                    ready.func(),
                    (),
                    value,
                ),
                None => *final(self).dest == *old(self).dest,
            },
    {
        if let Some(ready) = self.func.take() {
            *self.dest = Some(ready.run());
        }
    }
}

/// Work to run, and the latch that tells others when it has run.
pub struct Job<'a> {
    pub code: Box<dyn Executable + 'a>,
    pub latch: Arc<Latch>,
}

impl<'a> Job<'a> {
    /// A job that runs `code` and then sets `latch`.
    pub fn new(code: Box<dyn Executable + 'a>, latch: Arc<Latch>) -> (job: Job<'a>)
        ensures
            job.latch == latch,
    {
        Job { code, latch }
    }

    /// Runs the code, then sets the latch.
    pub fn execute(&mut self)
        ensures
            final(self).code.spent(),
            final(self).latch == old(self).latch,
    {
        self.code.execute();
        self.latch.set();
    }
}

} // verus!
