//! `NSOperationQueue`'s main queue, which must be the same object every time
//! an app asks for it: apps compare against it to decide whether they are
//! already on the main queue.

use crate::objc::{after_request, shared_instance, Id};
use vstd::prelude::*;

verus! {

/// The `+mainQueue` singleton, once an app has asked for it.
#[derive(Clone, Copy, Debug, Default)]
pub struct State {
    main_queue: Option<Id>,
}

impl State {
    pub closed spec fn main_queue_view(&self) -> Option<Id> {
        self.main_queue
    }

    pub fn new() -> (r: State)
        ensures
            r.main_queue_view() is None,
    {
        State { main_queue: None }
    }

    /// `+mainQueue`: the same object every time, created by `create` the
    /// first time.
    pub fn main_queue<F: FnOnce() -> Id>(&mut self, create: F) -> (r: Id)
        requires
            old(self).main_queue_view() is None ==> call_requires(create, ()),
        ensures
            (r, final(self).main_queue_view()) == after_request(old(self).main_queue_view(), r),
            old(self).main_queue_view() is None ==> call_ensures(create, (), r),
    {
        shared_instance(&mut self.main_queue, create)
    }
}

} // verus!
