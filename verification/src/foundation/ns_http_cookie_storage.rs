//! `NSHTTPCookieStorage`: the one shared store.

use crate::objc::{after_request, shared_instance, Id};
use vstd::prelude::*;

verus! {

/// The shared cookie storage, once an app has asked for it.
#[derive(Clone, Copy, Debug, Default)]
pub struct State {
    shared: Option<Id>,
}

impl State {
    pub closed spec fn shared_view(&self) -> Option<Id> {
        self.shared
    }

    pub fn new() -> (r: State)
        ensures
            r.shared_view() is None,
    {
        State { shared: None }
    }

    /// `+sharedHTTPCookieStorage`: the same object every time, created by
    /// `create` the first time.
    pub fn shared_storage<F: FnOnce() -> Id>(&mut self, create: F) -> (r: Id)
        requires
            old(self).shared_view() is None ==> call_requires(create, ()),
        ensures
            (r, final(self).shared_view()) == after_request(old(self).shared_view(), r),
            old(self).shared_view() is None ==> call_ensures(create, (), r),
    {
        shared_instance(&mut self.shared, create)
    }
}

} // verus!
