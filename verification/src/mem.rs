//! A model of the guest's heap as the corruption engine sees it: a list of
//! live allocations, each a run of bytes at a guest address.

use vstd::prelude::*;

verus! {

/// A guest address or size.
pub type GuestUSize = u32;

/// The size of a guest memory page.
pub const PAGE_SIZE: GuestUSize = 0x1000;

/// One live allocation: its base address and its bytes.
pub struct Allocation {
    base: GuestUSize,
    bytes: Vec<u8>,
}

/// Guest memory, as far as live allocations go.
pub struct Mem {
    null_segment_size: GuestUSize,
    allocations: Vec<Allocation>,
}

/// Whether `addr` lies in the allocation `(base, size)`.
pub open spec fn in_allocation(range: (int, int), addr: int) -> bool {
    range.0 <= addr < range.0 + range.1
}

impl Mem {
    /// The live allocations as `(base, size)`, lowest address first.
    pub closed spec fn live(&self) -> Seq<(int, int)> {
        Seq::new(
            self.allocations@.len(),
            |i: int| (self.allocations@[i].base as int, self.allocations@[i].bytes@.len() as int),
        )
    }

    /// The byte at guest address `addr`, when it lies in a live allocation.
    pub closed spec fn byte_at(&self, addr: int) -> Option<u8> {
        if exists|i: int|
            0 <= i < self.allocations@.len() && in_allocation(self.live()[i], addr) {
            let i = choose|i: int|
                0 <= i < self.allocations@.len() && in_allocation(self.live()[i], addr);
            Some(self.allocations@[i].bytes@[addr - self.allocations@[i].base])
        } else {
            None
        }
    }

    /// Addresses below this are never handed out.
    pub closed spec fn floor(&self) -> int {
        self.null_segment_size as int
    }

    /// Allocations are non-empty, sorted, disjoint, above the null segment,
    /// and inside the 32-bit address space.
    pub closed spec fn wf(&self) -> bool {
        &&& forall|i: int|
            0 <= i < self.allocations@.len() ==> {
                &&& 0 < (#[trigger] self.allocations@[i]).bytes@.len() <= 0xffff_ffff
                &&& self.allocations@[i].base >= self.null_segment_size
                &&& self.allocations@[i].base + self.allocations@[i].bytes@.len() <= 0x1_0000_0000
            }
        &&& forall|i: int, j: int|
            0 <= i < j < self.allocations@.len() ==> self.allocations@[i].base
                + self.allocations@[i].bytes@.len() <= self.allocations@[j].base
    }

    /// An address space with nothing allocated and no null segment.
    pub fn new() -> (m: Mem)
        ensures
            m.wf(),
            m.live() == Seq::<(int, int)>::empty(),
            m.floor() == 0,
    {
        Mem { null_segment_size: 0, allocations: Vec::new() }
    }

    /// Reserve `size` bytes at the bottom of the address space, which no
    /// allocation will ever occupy. Only possible before anything is
    /// allocated.
    pub fn set_null_segment_size(&mut self, size: GuestUSize)
        requires
            old(self).wf(),
            old(self).live().len() == 0,
        ensures
            final(self).wf(),
            final(self).live().len() == 0,
            final(self).floor() == size,
    {
        self.null_segment_size = size;
    }

    /// Allocate `size` zeroed bytes above everything already allocated, and
    /// return their address.
    pub fn allocate(&mut self, size: GuestUSize) -> (base: GuestUSize)
        requires
            old(self).wf(),
            size > 0,
            old(self).floor() + size <= 0x1_0000_0000,
            old(self).live().len() > 0 ==> old(self).live().last().0 + old(self).live().last().1
                + size <= 0x1_0000_0000,
        ensures
            final(self).wf(),
            final(self).floor() == old(self).floor(),
            final(self).live() == old(self).live().push((base as int, size as int)),
            forall|a: int| base <= a < base + size ==> final(self).byte_at(a) == Some(0u8),
            forall|a: int| !(base <= a < base + size) ==> final(self).byte_at(a) == old(self).byte_at(a),
    {
        let n = self.allocations.len();
        let base = if n == 0 {
            self.null_segment_size
        } else {
            let last = &self.allocations[n - 1];
            last.base + last.bytes.len() as u32
        };
        let mut bytes: Vec<u8> = Vec::new();
        let mut i: u32 = 0;
        while i < size
            invariant
                i <= size,
                bytes@.len() == i,
                forall|k: int| 0 <= k < i ==> bytes@[k] == 0u8,
            decreases size - i,
        {
            bytes.push(0u8);
            i = i + 1;
        }
        let ghost old_self = *self;
        self.allocations.push(Allocation { base, bytes });
        proof {
            assert(self.live() =~= old_self.live().push((base as int, size as int)));
            assert forall|a: int| base <= a < base + size implies self.byte_at(a) == Some(0u8) by {
                assert(in_allocation(self.live()[n as int], a));
                let i = choose|i: int|
                    0 <= i < self.allocations@.len() && in_allocation(self.live()[i], a);
                assert(i == n);
            }
            assert forall|a: int| !(base <= a < base + size) implies self.byte_at(a)
                == old_self.byte_at(a) by {
                if exists|i: int|
                    0 <= i < old_self.allocations@.len() && in_allocation(old_self.live()[i], a) {
                    let i = choose|i: int|
                        0 <= i < old_self.allocations@.len() && in_allocation(
                            old_self.live()[i],
                            a,
                        );
                    assert(in_allocation(self.live()[i], a));
                }
            }
        }
        base
    }

    /// The live allocations as `(base, size)`, lowest address first.
    pub fn live_allocations(&self) -> (r: Vec<(GuestUSize, GuestUSize)>)
        requires
            self.wf(),
        ensures
            r@.len() == self.live().len(),
            forall|i: int|
                0 <= i < r@.len() ==> (r@[i].0 as int, r@[i].1 as int) == #[trigger] self.live()[i],
    {
        let mut r: Vec<(GuestUSize, GuestUSize)> = Vec::new();
        let mut i: usize = 0;
        while i < self.allocations.len()
            invariant
                self.wf(),
                i <= self.allocations@.len(),
                r@.len() == i,
                forall|k: int|
                    0 <= k < i ==> (r@[k].0 as int, r@[k].1 as int) == #[trigger] self.live()[k],
            decreases self.allocations@.len() - i,
        {
            let a = &self.allocations[i];
            assert(a.base + a.bytes@.len() <= 0x1_0000_0000);
            r.push((a.base, a.bytes.len() as u32));
            i = i + 1;
        }
        r
    }

    /// Overwrite the byte at `addr` with `value`, when `addr` lies in a live
    /// allocation; any other address is left alone.
    pub fn corrupt_byte(&mut self, addr: GuestUSize, value: u8)
        requires
            old(self).wf(),
        ensures
            final(self).wf(),
            final(self).live() == old(self).live(),
            final(self).floor() == old(self).floor(),
            final(self).byte_at(addr as int) == (if old(self).byte_at(addr as int) is Some {
                Some(value)
            } else {
                None
            }),
            forall|a: int| a != addr ==> final(self).byte_at(a) == old(self).byte_at(a),
    {
        let ghost old_self = *self;
        let n = self.allocations.len();
        let mut i: usize = 0;
        while i < n
            invariant
                *self == old_self,
                old_self == *old(self),
                old_self.wf(),
                n == self.allocations@.len(),
                i <= n,
                forall|k: int| 0 <= k < i ==> !in_allocation(old_self.live()[k], addr as int),
            decreases n - i,
        {
            let base = self.allocations[i].base;
            let size = self.allocations[i].bytes.len();
            if base <= addr && ((addr - base) as usize) < size {
                let offset = (addr - base) as usize;
                let mut allocation = self.allocations.remove(i);
                allocation.bytes.set(offset, value);
                self.allocations.insert(i, allocation);
                proof {
                    assert(self.live() =~= old_self.live());
                    assert(in_allocation(old_self.live()[i as int], addr as int));
                    assert forall|a: int| true implies #[trigger] self.byte_at(a) == (if a
                        == addr {
                        if old_self.byte_at(a) is Some {
                            Some(value)
                        } else {
                            None
                        }
                    } else {
                        old_self.byte_at(a)
                    }) by {
                        if exists|j: int|
                            0 <= j < old_self.allocations@.len() && in_allocation(
                                old_self.live()[j],
                                a,
                            ) {
                            let j = choose|j: int|
                                0 <= j < old_self.allocations@.len() && in_allocation(
                                    old_self.live()[j],
                                    a,
                                );
                            assert(in_allocation(self.live()[j], a));
                            let k = choose|k: int|
                                0 <= k < self.allocations@.len() && in_allocation(
                                    self.live()[k],
                                    a,
                                );
                            assert(k == j) by {
                                if k < j {
                                    assert(old_self.live()[k].0 + old_self.live()[k].1
                                        <= old_self.live()[j].0);
                                } else if j < k {
                                    assert(old_self.live()[j].0 + old_self.live()[j].1
                                        <= old_self.live()[k].0);
                                }
                            }
                            if a == addr {
                                assert(j == i) by {
                                    if j < i {
                                        assert(!in_allocation(old_self.live()[j], addr as int));
                                    } else if i < j {
                                        assert(old_self.live()[i as int].0 + old_self.live()[i
                                            as int].1 <= old_self.live()[j].0);
                                    }
                                }
                            }
                        } else {
                            assert forall|k: int|
                                0 <= k < self.allocations@.len() implies !in_allocation(
                                self.live()[k],
                                a,
                            ) by {
                                assert(!in_allocation(old_self.live()[k], a));
                            }
                        }
                    }
                }
                return;
            }
            i = i + 1;
        }
        proof {
            assert forall|k: int|
                0 <= k < self.allocations@.len() implies !in_allocation(
                self.live()[k],
                addr as int,
            ) by {}
        }
    }

    /// Set the `len` bytes from `addr` to `value`, where they all lie in one
    /// live allocation.
    pub fn fill(&mut self, addr: GuestUSize, len: GuestUSize, value: u8)
        requires
            old(self).wf(),
            forall|a: int| addr <= a < addr + len ==> old(self).byte_at(a) is Some,
        ensures
            final(self).wf(),
            final(self).live() == old(self).live(),
            final(self).floor() == old(self).floor(),
            forall|a: int| addr <= a < addr + len ==> final(self).byte_at(a) == Some(value),
            forall|a: int| !(addr <= a < addr + len) ==> final(self).byte_at(a) == old(
                self,
            ).byte_at(a),
    {
        let mut i: u32 = 0;
        while i < len
            invariant
                self.wf(),
                i <= len,
                self.live() == old(self).live(),
                self.floor() == old(self).floor(),
                forall|a: int| addr <= a < addr + i ==> self.byte_at(a) == Some(value),
                forall|a: int| !(addr <= a < addr + i) ==> self.byte_at(a) == old(self).byte_at(a),
                forall|a: int| addr <= a < addr + len ==> old(self).byte_at(a) is Some,
            decreases len - i,
        {
            assert(self.byte_at(addr + i) is Some);
            assert(addr + i < 0x1_0000_0000) by {
                self.lemma_byte_in_space(addr + i);
            }
            self.corrupt_byte(addr + i, value);
            i = i + 1;
        }
    }

    /// The `len` bytes from `addr`, where they all lie in live allocations.
    pub fn read_bytes(&self, addr: GuestUSize, len: GuestUSize) -> (r: Vec<u8>)
        requires
            self.wf(),
            forall|a: int| addr <= a < addr + len ==> self.byte_at(a) is Some,
        ensures
            r@.len() == len,
            forall|k: int| 0 <= k < len ==> Some(r@[k]) == self.byte_at(addr + k),
    {
        let mut r: Vec<u8> = Vec::new();
        let mut i: u32 = 0;
        while i < len
            invariant
                self.wf(),
                i <= len,
                r@.len() == i,
                forall|a: int| addr <= a < addr + len ==> self.byte_at(a) is Some,
                forall|k: int| 0 <= k < i ==> Some(r@[k]) == self.byte_at(addr + k),
            decreases len - i,
        {
            assert(self.byte_at(addr + i) is Some);
            assert(addr + i < 0x1_0000_0000) by {
                self.lemma_byte_in_space(addr + i);
            }
            r.push(self.read_byte(addr + i));
            i = i + 1;
        }
        r
    }

    fn read_byte(&self, addr: GuestUSize) -> (r: u8)
        requires
            self.wf(),
            self.byte_at(addr as int) is Some,
        ensures
            Some(r) == self.byte_at(addr as int),
    {
        let n = self.allocations.len();
        let mut i: usize = 0;
        while i < n
            invariant
                self.wf(),
                self.byte_at(addr as int) is Some,
                n == self.allocations@.len(),
                i <= n,
                forall|k: int| 0 <= k < i ==> !in_allocation(self.live()[k], addr as int),
            decreases n - i,
        {
            let base = self.allocations[i].base;
            let size = self.allocations[i].bytes.len();
            if base <= addr && ((addr - base) as usize) < size {
                proof {
                    assert(in_allocation(self.live()[i as int], addr as int));
                    let k = choose|k: int|
                        0 <= k < self.allocations@.len() && in_allocation(
                            self.live()[k],
                            addr as int,
                        );
                    assert(k == i) by {
                        if i < k {
                            assert(self.live()[i as int].0 + self.live()[i as int].1
                                <= self.live()[k].0);
                        }
                    }
                }
                return self.allocations[i].bytes[(addr - base) as usize];
            }
            i = i + 1;
        }
        proof {
            let k = choose|k: int|
                0 <= k < self.allocations@.len() && in_allocation(self.live()[k], addr as int);
            assert(!in_allocation(self.live()[k], addr as int));
        }
        0
    }

    proof fn lemma_byte_in_space(&self, a: int)
        requires
            self.wf(),
            self.byte_at(a) is Some,
        ensures
            0 <= a < 0x1_0000_0000,
    {
        let i = choose|i: int|
            0 <= i < self.allocations@.len() && in_allocation(self.live()[i], a);
        assert(self.allocations@[i].base + self.allocations@[i].bytes@.len() <= 0x1_0000_0000);
    }

    /// Every live allocation is non-empty and lies inside the 32-bit address
    /// space, so the live allocations together hold no negative number of
    /// bytes, and at most 2^32.
    pub proof fn lemma_live_ranges(&self)
        requires
            self.wf(),
        ensures
            forall|i: int|
                0 <= i < self.live().len() ==> 0 <= (#[trigger] self.live()[i]).0 && 0 < self.live()[i].1
                    && self.live()[i].0 + self.live()[i].1 <= 0x1_0000_0000,
            0 <= live_total(self.live(), self.live().len() as int) <= 0x1_0000_0000,
    {
        assert forall|i: int| 0 <= i < self.live().len() implies 0 <= (#[trigger] self.live()[i]).0
            && 0 < self.live()[i].1 && self.live()[i].0 + self.live()[i].1 <= 0x1_0000_0000 by {
            assert(0 < self.allocations@[i].bytes@.len());
        }
        lemma_live_total_nonnegative(self.live(), self.live().len() as int);
        self.lemma_live_total(self.live().len() as int);
    }

    /// Every live allocation ends inside the 32-bit address space, and no two
    /// overlap, so together they hold at most 2^32 bytes.
    pub proof fn lemma_live_total(&self, n: int)
        requires
            self.wf(),
            0 <= n <= self.live().len(),
        ensures
            n > 0 ==> live_total(self.live(), n) <= self.live()[n - 1].0 + self.live()[n - 1].1
                - self.floor(),
            live_total(self.live(), n) <= 0x1_0000_0000,
        decreases n,
    {
        if n > 0 {
            self.lemma_live_total(n - 1);
            if n > 1 {
                assert(self.live()[n - 2].0 + self.live()[n - 2].1 <= self.live()[n - 1].0);
            }
            assert(self.allocations@[n - 1].base + self.allocations@[n - 1].bytes@.len()
                <= 0x1_0000_0000);
        }
    }
}

/// Sizes that are not negative add up to a total that is not negative.
pub proof fn lemma_live_total_nonnegative(live: Seq<(int, int)>, n: int)
    requires
        forall|i: int| 0 <= i < live.len() ==> 0 <= (#[trigger] live[i]).1,
        n <= live.len(),
    ensures
        0 <= live_total(live, n),
    decreases n,
{
    if n > 0 {
        lemma_live_total_nonnegative(live, n - 1);
    }
}

/// The total size of the first `n` allocations of `live`.
pub open spec fn live_total(live: Seq<(int, int)>, n: int) -> int
    decreases n,
{
    if n <= 0 {
        0
    } else {
        live_total(live, n - 1) + live[n - 1].1
    }
}

} // verus!
