//! Identifier allocation for shapes and groups.
//!
//! Identifiers come from an explicit allocator owned by whichever structure
//! creates shapes or groups, so allocation is deterministic and carries no
//! hidden global state.

use vstd::prelude::*;

verus! {

use crate::text::{push_char, push_decimal, spec_dec_digits};

/// A monotonically increasing source of fresh identifiers and of numbered
/// group names.
#[derive(Clone, Copy, Debug, PartialEq, Eq, Structural)]
pub struct IdAllocator {
    /// The next identifier to hand out.
    pub next_id: u64,
    /// The number of the next auto-generated group name.
    pub next_name: u64,
}

/// The name `"Group N"`.
pub open spec fn spec_group_name(n: int) -> Seq<char> {
    seq!['G', 'r', 'o', 'u', 'p', ' '] + spec_dec_digits(n)
}

impl IdAllocator {
    /// Identifiers start at 1, so 0 never names a shape or group.
    pub fn new() -> (a: IdAllocator)
        ensures
            a.next_id == 1,
            a.next_name == 1,
    {
        IdAllocator { next_id: 1, next_name: 1 }
    }

    /// Hand out a fresh shape identifier.
    pub fn generate_shape_id(&mut self) -> (id: u64)
        requires
            old(self).next_id < u64::MAX,
        ensures
            id == old(self).next_id,
            final(self).next_id == old(self).next_id + 1,
            final(self).next_name == old(self).next_name,
    {
        let id = self.next_id;
        self.next_id = self.next_id + 1;
        id
    }

    /// Hand out a fresh group identifier. Groups and shapes draw from the
    /// same counter, so no group identifier collides with a shape's.
    pub fn generate_group_id(&mut self) -> (id: u64)
        requires
            old(self).next_id < u64::MAX,
        ensures
            id == old(self).next_id,
            final(self).next_id == old(self).next_id + 1,
            final(self).next_name == old(self).next_name,
    {
        let id = self.next_id;
        self.next_id = self.next_id + 1;
        id
    }

    /// The next numbered group name, `"Group 1"`, `"Group 2"`, ...
    pub fn generate_group_name(&mut self) -> (name: String)
        requires
            old(self).next_name < u64::MAX,
        ensures
            name@ == spec_group_name(old(self).next_name as int),
            final(self).next_name == old(self).next_name + 1,
            final(self).next_id == old(self).next_id,
    {
        let num = self.next_name;
        self.next_name = self.next_name + 1;
        let mut name = String::new();
        push_char(&mut name, 'G');
        push_char(&mut name, 'r');
        push_char(&mut name, 'o');
        push_char(&mut name, 'u');
        push_char(&mut name, 'p');
        push_char(&mut name, ' ');
        push_decimal(&mut name, num);
        proof {
            assert(name@ =~= spec_group_name(num as int));
        }
        name
    }
}

} // verus!
