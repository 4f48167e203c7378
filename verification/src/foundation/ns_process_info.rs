//! `NSProcessInfo`: the shared instance, and the strings of
//! `-globallyUniqueString`.

use crate::objc::{after_request, shared_instance, Id};
use crate::text::{hex, hex_string, lemma_hex_injective};
use vstd::prelude::*;
use vstd::string::*;

verus! {

broadcast use vstd::string::group_string_axioms;

/// The shared process info, and the sequence number of the next unique
/// string.
#[derive(Clone, Copy, Debug, Default)]
pub struct State {
    process_info: Option<Id>,
    next_unique_string: u64,
}

/// The unique string for a moment, a process and a sequence number:
/// `tapHLE-<time>-<process>-<sequence>`, each in lower-case hexadecimal.
pub open spec fn unique_string(timestamp_nanos: u128, process_id: u32, sequence: u64) -> Seq<char> {
    "tapHLE-"@ + hex(timestamp_nanos as nat) + "-"@ + hex(process_id as nat) + "-"@ + hex(
        sequence as nat,
    )
}

/// The unique string for a moment, a process and a sequence number.
pub fn format_unique_string(timestamp_nanos: u128, process_id: u32, sequence: u64) -> (r: String)
    ensures
        r@ == unique_string(timestamp_nanos, process_id, sequence),
{
    "tapHLE-".to_owned().concat(hex_string(timestamp_nanos).as_str()).concat("-").concat(
        hex_string(process_id as u128).as_str(),
    ).concat("-").concat(hex_string(sequence as u128).as_str())
}

/// Two unique strings made in the same moment by the same process differ
/// when their sequence numbers do.
pub proof fn lemma_unique_strings_change_with_the_sequence(
    timestamp_nanos: u128,
    process_id: u32,
    first: u64,
    second: u64,
)
    requires
        first != second,
    ensures
        unique_string(timestamp_nanos, process_id, first) != unique_string(
            timestamp_nanos,
            process_id,
            second,
        ),
{
    let prefix = "tapHLE-"@ + hex(timestamp_nanos as nat) + "-"@ + hex(process_id as nat) + "-"@;
    let a = unique_string(timestamp_nanos, process_id, first);
    let b = unique_string(timestamp_nanos, process_id, second);
    assert(a == prefix + hex(first as nat));
    assert(b == prefix + hex(second as nat));
    if a == b {
        assert(a.subrange(prefix.len() as int, a.len() as int) =~= hex(first as nat));
        assert(b.subrange(prefix.len() as int, b.len() as int) =~= hex(second as nat));
        lemma_hex_injective(first as nat, second as nat);
    }
}

impl State {
    pub closed spec fn process_info_view(&self) -> Option<Id> {
        self.process_info
    }

    pub closed spec fn next_sequence(&self) -> u64 {
        self.next_unique_string
    }

    pub fn new() -> (r: State)
        ensures
            r.process_info_view() is None,
            r.next_sequence() == 0,
    {
        State { process_info: None, next_unique_string: 0 }
    }

    /// `+processInfo`: the same object every time, created by `create` the
    /// first time.
    pub fn process_info<F: FnOnce() -> Id>(&mut self, create: F) -> (r: Id)
        requires
            old(self).process_info_view() is None ==> call_requires(create, ()),
        ensures
            (r, final(self).process_info_view()) == after_request(old(self).process_info_view(), r),
            old(self).process_info_view() is None ==> call_ensures(create, (), r),
            final(self).next_sequence() == old(self).next_sequence(),
    {
        shared_instance(&mut self.process_info, create)
    }

    /// `-globallyUniqueString` at the moment `timestamp_nanos` in the process
    /// `process_id`: each call takes the next sequence number.
    pub fn globally_unique_string(&mut self, timestamp_nanos: u128, process_id: u32) -> (r: String)
        requires
            old(self).next_sequence() < u64::MAX,
        ensures
            r@ == unique_string(timestamp_nanos, process_id, old(self).next_sequence()),
            final(self).next_sequence() == old(self).next_sequence() + 1,
            final(self).process_info_view() == old(self).process_info_view(),
    {
        let sequence = self.next_unique_string;
        self.next_unique_string = sequence + 1;
        format_unique_string(timestamp_nanos, process_id, sequence)
    }
}

} // verus!
