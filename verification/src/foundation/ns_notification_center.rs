//! `NSNotificationCenter`'s default centre.

use crate::objc::{after_request, shared_instance, Id};
use vstd::prelude::*;

verus! {

/// The `+defaultCenter` singleton, once an app has asked for it.
#[derive(Clone, Copy, Debug, Default)]
pub struct State {
    default_center: Option<Id>,
}

impl State {
    pub closed spec fn default_center_view(&self) -> Option<Id> {
        self.default_center
    }

    pub fn new() -> (r: State)
        ensures
            r.default_center_view() is None,
    {
        State { default_center: None }
    }

    /// `+defaultCenter`: the same object every time, created by `create` the
    /// first time.
    pub fn default_center<F: FnOnce() -> Id>(&mut self, create: F) -> (r: Id)
        requires
            old(self).default_center_view() is None ==> call_requires(create, ()),
        ensures
            (r, final(self).default_center_view()) == after_request(
                old(self).default_center_view(),
                r,
            ),
            old(self).default_center_view() is None ==> call_ensures(create, (), r),
    {
        shared_instance(&mut self.default_center, create)
    }
}

} // verus!
