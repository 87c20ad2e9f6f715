//! The page-table translator: a four-level radix tree of 512-slot tables
//! that maps virtual pages to physical frames. Installing a mapping walks
//! the levels top-down, drawing a fresh frame from the allocator for every
//! intermediate table still missing; an existing leaf is never overwritten.
use vstd::prelude::*;

use crate::addr::{
    canonical, l1_index, l2_index, l3_index, l4_index, lemma_index_bounds,
    lemma_page_index_injective, p1_index_of, p2_index_of, p3_index_of, p4_index_of, page_valid,
    PHYS_ADDR_LIMIT,
};
use crate::memory::BootInfoFrameAllocator;

verus! {

/// Access flags attached to a mapping.
#[derive(Clone, Copy, PartialEq, Eq, Structural, Debug)]
pub struct PageFlags {
    /// Writes through this mapping are permitted.
    pub writable: bool,
    /// User-mode code may touch the page.
    pub user_accessible: bool,
}

/// A leaf page-table entry: the mapped frame and its flags.
#[derive(Clone, Copy, PartialEq, Eq, Structural, Debug)]
pub struct LeafEntry {
    /// Start address of the mapped physical frame.
    pub frame: u64,
    /// The flags the mapping was installed with.
    pub flags: PageFlags,
}

/// Why a mapping request was refused.
#[derive(Clone, Copy, PartialEq, Eq, Structural, Debug)]
pub enum MapError {
    /// The page already has a leaf entry; mappings are never silently
    /// replaced.
    AlreadyMapped,
    /// An intermediate table was needed and the frame allocator was
    /// exhausted.
    FrameAllocationFailed,
}

struct L1Table {
    slots: Vec<Option<LeafEntry>>,
}

struct L2Entry {
    /// The frame backing the level-1 table, as drawn from the allocator.
    table_frame: u64,
    table: Box<L1Table>,
}

struct L2Table {
    slots: Vec<Option<L2Entry>>,
}

struct L3Entry {
    /// The frame backing the level-2 table, as drawn from the allocator.
    table_frame: u64,
    table: Box<L2Table>,
}

struct L3Table {
    slots: Vec<Option<L3Entry>>,
}

struct L4Entry {
    /// The frame backing the level-3 table, as drawn from the allocator.
    table_frame: u64,
    table: Box<L3Table>,
}

struct L4Table {
    slots: Vec<Option<L4Entry>>,
}

impl L1Table {
    spec fn wf(self) -> bool {
        &&& self.slots@.len() == 512
        &&& forall|i: int|
            0 <= i < 512 ==> match #[trigger] self.slots@[i] {
                Some(e) => e.frame < PHYS_ADDR_LIMIT && e.frame % 4096 == 0,
                None => true,
            }
    }

    spec fn leaf(self, i1: int) -> Option<LeafEntry> {
        self.slots@[i1]
    }
}

impl L2Table {
    spec fn wf(self) -> bool {
        &&& self.slots@.len() == 512
        &&& forall|i: int|
            0 <= i < 512 ==> match #[trigger] self.slots@[i] {
                Some(e) => e.table.wf(),
                None => true,
            }
    }

    spec fn leaf(self, i2: int, i1: int) -> Option<LeafEntry> {
        match self.slots@[i2] {
            Some(e) => e.table.leaf(i1),
            None => None,
        }
    }

    /// How many tables along the path through slot `i2` are still missing.
    spec fn missing(self, i2: int) -> int {
        if self.slots@[i2] is Some {
            0
        } else {
            1
        }
    }
}

impl L3Table {
    spec fn wf(self) -> bool {
        &&& self.slots@.len() == 512
        &&& forall|i: int|
            0 <= i < 512 ==> match #[trigger] self.slots@[i] {
                Some(e) => e.table.wf(),
                None => true,
            }
    }

    spec fn leaf(self, i3: int, i2: int, i1: int) -> Option<LeafEntry> {
        match self.slots@[i3] {
            Some(e) => e.table.leaf(i2, i1),
            None => None,
        }
    }

    spec fn missing(self, i3: int, i2: int) -> int {
        match self.slots@[i3] {
            Some(e) => e.table.missing(i2),
            None => 2,
        }
    }
}

impl L4Table {
    spec fn wf(self) -> bool {
        &&& self.slots@.len() == 512
        &&& forall|i: int|
            0 <= i < 512 ==> match #[trigger] self.slots@[i] {
                Some(e) => e.table.wf(),
                None => true,
            }
    }

    spec fn leaf(self, i4: int, i3: int, i2: int, i1: int) -> Option<LeafEntry> {
        match self.slots@[i4] {
            Some(e) => e.table.leaf(i3, i2, i1),
            None => None,
        }
    }

    spec fn missing(self, i4: int, i3: int, i2: int) -> int {
        match self.slots@[i4] {
            Some(e) => e.table.missing(i3, i2),
            None => 3,
        }
    }
}

/// A vector of 512 empty slots: the body of a freshly allocated table.
fn new_slots<T>() -> (v: Vec<Option<T>>)
    ensures
        v@.len() == 512,
        forall|i: int| 0 <= i < 512 ==> v@[i] is None,
{
    let mut v: Vec<Option<T>> = Vec::new();
    let mut i: usize = 0;
    while i < 512
        invariant
            i <= 512,
            v@.len() == i,
            forall|j: int| 0 <= j < i ==> v@[j] is None,
        decreases 512 - i,
    {
        v.push(None);
        i = i + 1;
    }
    v
}

impl L1Table {
    fn new() -> (r: Self)
        ensures
            r.wf(),
            forall|i1: int| 0 <= i1 < 512 ==> #[trigger] r.leaf(i1) is None,
    {
        L1Table { slots: new_slots() }
    }

    fn get_entry(&self, i1: usize) -> (r: Option<LeafEntry>)
        requires
            self.wf(),
            i1 < 512,
        ensures
            r == self.leaf(i1 as int),
    {
        self.slots[i1]
    }
}

impl L2Table {
    fn new() -> (r: Self)
        ensures
            r.wf(),
            forall|i2: int, i1: int|
                0 <= i2 < 512 && 0 <= i1 < 512 ==> #[trigger] r.leaf(i2, i1) is None,
            forall|i2: int| 0 <= i2 < 512 ==> #[trigger] r.missing(i2) == 1,
    {
        L2Table { slots: new_slots() }
    }

    fn find_leaf(&self, i2: usize, i1: usize) -> (r: Option<LeafEntry>)
        requires
            self.wf(),
            i2 < 512,
            i1 < 512,
        ensures
            r == self.leaf(i2 as int, i1 as int),
    {
        match &self.slots[i2] {
            Some(e) => e.table.get_entry(i1),
            None => None,
        }
    }
}

impl L3Table {
    fn new() -> (r: Self)
        ensures
            r.wf(),
            forall|i3: int, i2: int, i1: int|
                0 <= i3 < 512 && 0 <= i2 < 512 && 0 <= i1 < 512
                    ==> #[trigger] r.leaf(i3, i2, i1) is None,
            forall|i3: int, i2: int|
                0 <= i3 < 512 && 0 <= i2 < 512 ==> #[trigger] r.missing(i3, i2) == 2,
    {
        L3Table { slots: new_slots() }
    }

    fn find_leaf(&self, i3: usize, i2: usize, i1: usize) -> (r: Option<LeafEntry>)
        requires
            self.wf(),
            i3 < 512,
            i2 < 512,
            i1 < 512,
        ensures
            r == self.leaf(i3 as int, i2 as int, i1 as int),
    {
        match &self.slots[i3] {
            Some(e) => e.table.find_leaf(i2, i1),
            None => None,
        }
    }
}

impl L4Table {
    fn new() -> (r: Self)
        ensures
            r.wf(),
            forall|i4: int, i3: int, i2: int, i1: int|
                0 <= i4 < 512 && 0 <= i3 < 512 && 0 <= i2 < 512 && 0 <= i1 < 512
                    ==> #[trigger] r.leaf(i4, i3, i2, i1) is None,
    {
        L4Table { slots: new_slots() }
    }

    fn find_leaf(&self, i4: usize, i3: usize, i2: usize, i1: usize) -> (r: Option<LeafEntry>)
        requires
            self.wf(),
            i4 < 512,
            i3 < 512,
            i2 < 512,
            i1 < 512,
        ensures
            r == self.leaf(i4 as int, i3 as int, i2 as int, i1 as int),
    {
        match &self.slots[i4] {
            Some(e) => e.table.find_leaf(i3, i2, i1),
            None => None,
        }
    }
}

impl L1Table {
    /// Installs a leaf in this table unless the slot is taken.
    fn set_leaf(&mut self, i1: usize, frame: u64, flags: PageFlags) -> (r: Result<(), MapError>)
        requires
            old(self).wf(),
            i1 < 512,
            frame < PHYS_ADDR_LIMIT,
            frame % 4096 == 0,
        ensures
            final(self).wf(),
            match r {
                Ok(()) => old(self).leaf(i1 as int) is None && final(self).slots@ == old(self).slots@.update(i1 as int, Some(LeafEntry { frame, flags })),
                Err(MapError::AlreadyMapped) => old(self).leaf(i1 as int) is Some && final(self).slots@ == old(self).slots@,
                Err(MapError::FrameAllocationFailed) => false,
            },
    {
        if self.slots[i1].is_some() {
            return Err(MapError::AlreadyMapped);
        }
        let slot = &mut self.slots[i1];
        *slot = Some(LeafEntry { frame, flags });
        Ok(())
    }
}

impl L2Table {
    /// Walks one level: installs the leaf below slot `i2`, creating the
    /// level-1 table first when the slot is empty.
    fn map_at(
        &mut self,
        i2: usize,
        i1: usize,
        frame: u64,
        flags: PageFlags,
        allocator: &mut BootInfoFrameAllocator,
    ) -> (r: Result<(), MapError>)
        requires
            old(self).wf(),
            i2 < 512,
            i1 < 512,
            frame < PHYS_ADDR_LIMIT,
            frame % 4096 == 0,
            old(allocator).wf(),
            old(allocator).allocated() + 1 <= usize::MAX,
        ensures
            final(self).wf(),
            final(allocator).wf(),
            final(allocator).catalog() == old(allocator).catalog(),
            forall|j2: int, j1: int|
                0 <= j2 < 512 && 0 <= j1 < 512 && !(j2 == i2 as int && j1 == i1 as int)
                    ==> #[trigger] final(self).leaf(j2, j1) == old(self).leaf(j2, j1),
            match r {
                Ok(()) => old(self).leaf(i2 as int, i1 as int) is None && final(self).leaf(
                    i2 as int,
                    i1 as int,
                ) == Some(LeafEntry { frame, flags }) && old(allocator).frames_left() >= old(self).missing(i2 as int) && final(allocator).allocated() == old(allocator).allocated()
                    + old(self).missing(i2 as int),
                Err(MapError::AlreadyMapped) => old(self).leaf(i2 as int, i1 as int) is Some
                    && final(self).leaf(i2 as int, i1 as int) == old(self).leaf(
                    i2 as int,
                    i1 as int,
                ) && final(allocator).allocated() == old(allocator).allocated(),
                Err(MapError::FrameAllocationFailed) => old(self).leaf(i2 as int, i1 as int)
                    is None && final(self).leaf(i2 as int, i1 as int) is None && old(allocator).frames_left() < old(self).missing(i2 as int) && final(allocator).allocated()
                    == old(allocator).allocated() + old(allocator).frames_left() + 1,
            },
    {
        let slot = &mut self.slots[i2];
        match slot.take() {
            Some(mut entry) => {
                let ghost pre_table: L1Table = *entry.table;
                let r = (&mut *entry.table).set_leaf(i1, frame, flags);
                let ghost post_table: L1Table = *entry.table;
                *slot = Some(entry);
                proof {
                    assert forall|j2: int, j1: int|
                        0 <= j2 < 512 && 0 <= j1 < 512 && !(j2 == i2 as int && j1 == i1 as int)
                            implies #[trigger] self.leaf(j2, j1) == old(self).leaf(j2, j1) by {
                        if j2 == i2 as int {
                            assert(post_table.slots@[j1] == pre_table.slots@[j1]);
                        } else {
                            assert(self.slots@[j2] == old(self).slots@[j2]);
                        }
                    }
                }
                r
            },
            None => {
                match allocator.allocate_frame() {
                    Some(table_frame) => {
                        let mut t1 = L1Table::new();
                        let ghost fresh_table: L1Table = t1;
                        let r = t1.set_leaf(i1, frame, flags);
                        let ghost post_table: L1Table = t1;
                        *slot = Some(L2Entry { table_frame, table: Box::new(t1) });
                        proof {
                            assert forall|j2: int, j1: int|
                                0 <= j2 < 512 && 0 <= j1 < 512 && !(j2 == i2 as int && j1
                                    == i1 as int) implies #[trigger] self.leaf(j2, j1) == old(self).leaf(j2, j1) by {
                                if j2 == i2 as int {
                                    assert(old(self).leaf(j2, j1) is None);
                                    assert(fresh_table.leaf(j1) is None);
                                    assert(post_table.slots@[j1] == fresh_table.slots@[j1]);
                                } else {
                                    assert(self.slots@[j2] == old(self).slots@[j2]);
                                }
                            }
                        }
                        r
                    },
                    None => Err(MapError::FrameAllocationFailed),
                }
            },
        }
    }
}

impl L3Table {
    /// Walks one level: installs the leaf below slot `i3`, creating the
    /// level-2 table first when the slot is empty.
    fn map_at(
        &mut self,
        i3: usize,
        i2: usize,
        i1: usize,
        frame: u64,
        flags: PageFlags,
        allocator: &mut BootInfoFrameAllocator,
    ) -> (r: Result<(), MapError>)
        requires
            old(self).wf(),
            i3 < 512,
            i2 < 512,
            i1 < 512,
            frame < PHYS_ADDR_LIMIT,
            frame % 4096 == 0,
            old(allocator).wf(),
            old(allocator).allocated() + 2 <= usize::MAX,
        ensures
            final(self).wf(),
            final(allocator).wf(),
            final(allocator).catalog() == old(allocator).catalog(),
            forall|j3: int, j2: int, j1: int|
                0 <= j3 < 512 && 0 <= j2 < 512 && 0 <= j1 < 512 && !(j3 == i3 as int && j2
                    == i2 as int && j1 == i1 as int) ==> #[trigger] final(self).leaf(j3, j2, j1)
                    == old(self).leaf(j3, j2, j1),
            match r {
                Ok(()) => old(self).leaf(i3 as int, i2 as int, i1 as int) is None && final(self).leaf(i3 as int, i2 as int, i1 as int) == Some(LeafEntry { frame, flags }) && old(allocator).frames_left() >= old(self).missing(i3 as int, i2 as int) && final(allocator).allocated() == old(allocator).allocated() + old(self).missing(
                    i3 as int,
                    i2 as int,
                ),
                Err(MapError::AlreadyMapped) => old(self).leaf(i3 as int, i2 as int, i1 as int)
                    is Some && final(self).leaf(i3 as int, i2 as int, i1 as int) == old(self).leaf(
                    i3 as int,
                    i2 as int,
                    i1 as int,
                ) && final(allocator).allocated() == old(allocator).allocated(),
                Err(MapError::FrameAllocationFailed) => old(self).leaf(
                    i3 as int,
                    i2 as int,
                    i1 as int,
                ) is None && final(self).leaf(i3 as int, i2 as int, i1 as int) is None && old(allocator).frames_left() < old(self).missing(i3 as int, i2 as int) && final(allocator).allocated() == old(allocator).allocated() + old(allocator).frames_left() + 1,
            },
    {
        let slot = &mut self.slots[i3];
        match slot.take() {
            Some(mut entry) => {
                let ghost pre_table: L2Table = *entry.table;
                let r = (&mut *entry.table).map_at(i2, i1, frame, flags, allocator);
                let ghost post_table: L2Table = *entry.table;
                *slot = Some(entry);
                proof {
                    assert forall|j3: int, j2: int, j1: int|
                        0 <= j3 < 512 && 0 <= j2 < 512 && 0 <= j1 < 512 && !(j3 == i3 as int && j2
                            == i2 as int && j1 == i1 as int) implies #[trigger] self.leaf(
                        j3,
                        j2,
                        j1,
                    ) == old(self).leaf(j3, j2, j1) by {
                        if j3 == i3 as int {
                            assert(post_table.leaf(j2, j1) == pre_table.leaf(j2, j1));
                        } else {
                            assert(self.slots@[j3] == old(self).slots@[j3]);
                        }
                    }
                }
                r
            },
            None => {
                match allocator.allocate_frame() {
                    Some(table_frame) => {
                        let mut t2 = L2Table::new();
                        let ghost fresh_table: L2Table = t2;
                        let r = t2.map_at(i2, i1, frame, flags, allocator);
                        let ghost post_table: L2Table = t2;
                        *slot = Some(L3Entry { table_frame, table: Box::new(t2) });
                        proof {
                            assert forall|j3: int, j2: int, j1: int|
                                0 <= j3 < 512 && 0 <= j2 < 512 && 0 <= j1 < 512 && !(j3
                                    == i3 as int && j2 == i2 as int && j1 == i1 as int)
                                implies #[trigger] self.leaf(j3, j2, j1) == old(self).leaf(
                                j3,
                                j2,
                                j1,
                            ) by {
                                if j3 == i3 as int {
                                    assert(old(self).leaf(j3, j2, j1) is None);
                                    if !(j2 == i2 as int && j1 == i1 as int) {
                                        assert(post_table.leaf(j2, j1) == fresh_table.leaf(
                                            j2,
                                            j1,
                                        ));
                                    }
                                    assert(post_table.leaf(j2, j1) is None);
                                } else {
                                    assert(self.slots@[j3] == old(self).slots@[j3]);
                                }
                            }
                        }
                        r
                    },
                    None => Err(MapError::FrameAllocationFailed),
                }
            },
        }
    }
}

impl L4Table {
    /// Walks one level: installs the leaf below slot `i4`, creating the
    /// level-3 table first when the slot is empty.
    fn map_at(
        &mut self,
        i4: usize,
        i3: usize,
        i2: usize,
        i1: usize,
        frame: u64,
        flags: PageFlags,
        allocator: &mut BootInfoFrameAllocator,
    ) -> (r: Result<(), MapError>)
        requires
            old(self).wf(),
            i4 < 512,
            i3 < 512,
            i2 < 512,
            i1 < 512,
            frame < PHYS_ADDR_LIMIT,
            frame % 4096 == 0,
            old(allocator).wf(),
            old(allocator).allocated() + 3 <= usize::MAX,
        ensures
            final(self).wf(),
            final(allocator).wf(),
            final(allocator).catalog() == old(allocator).catalog(),
            forall|j4: int, j3: int, j2: int, j1: int|
                0 <= j4 < 512 && 0 <= j3 < 512 && 0 <= j2 < 512 && 0 <= j1 < 512 && !(j4
                    == i4 as int && j3 == i3 as int && j2 == i2 as int && j1 == i1 as int)
                    ==> #[trigger] final(self).leaf(j4, j3, j2, j1) == old(self).leaf(
                    j4,
                    j3,
                    j2,
                    j1,
                ),
            match r {
                Ok(()) => old(self).leaf(i4 as int, i3 as int, i2 as int, i1 as int) is None
                    && final(self).leaf(i4 as int, i3 as int, i2 as int, i1 as int) == Some(
                    LeafEntry { frame, flags },
                ) && old(allocator).frames_left() >= old(self).missing(
                    i4 as int,
                    i3 as int,
                    i2 as int,
                ) && final(allocator).allocated() == old(allocator).allocated() + old(self).missing(
                    i4 as int,
                    i3 as int,
                    i2 as int,
                ),
                Err(MapError::AlreadyMapped) => old(self).leaf(
                    i4 as int,
                    i3 as int,
                    i2 as int,
                    i1 as int,
                ) is Some && final(self).leaf(i4 as int, i3 as int, i2 as int, i1 as int) == old(self).leaf(i4 as int, i3 as int, i2 as int, i1 as int) && final(allocator).allocated()
                    == old(allocator).allocated(),
                Err(MapError::FrameAllocationFailed) => old(self).leaf(
                    i4 as int,
                    i3 as int,
                    i2 as int,
                    i1 as int,
                ) is None && final(self).leaf(i4 as int, i3 as int, i2 as int, i1 as int) is None
                    && old(allocator).frames_left() < old(self).missing(
                    i4 as int,
                    i3 as int,
                    i2 as int,
                ) && final(allocator).allocated() == old(allocator).allocated() + old(allocator).frames_left() + 1,
            },
    {
        let slot = &mut self.slots[i4];
        match slot.take() {
            Some(mut entry) => {
                let ghost pre_table: L3Table = *entry.table;
                let r = (&mut *entry.table).map_at(i3, i2, i1, frame, flags, allocator);
                let ghost post_table: L3Table = *entry.table;
                *slot = Some(entry);
                proof {
                    assert forall|j4: int, j3: int, j2: int, j1: int|
                        0 <= j4 < 512 && 0 <= j3 < 512 && 0 <= j2 < 512 && 0 <= j1 < 512 && !(j4
                            == i4 as int && j3 == i3 as int && j2 == i2 as int && j1 == i1 as int)
                        implies #[trigger] self.leaf(j4, j3, j2, j1) == old(self).leaf(
                        j4,
                        j3,
                        j2,
                        j1,
                    ) by {
                        if j4 == i4 as int {
                            assert(post_table.leaf(j3, j2, j1) == pre_table.leaf(j3, j2, j1));
                        } else {
                            assert(self.slots@[j4] == old(self).slots@[j4]);
                        }
                    }
                }
                r
            },
            None => {
                match allocator.allocate_frame() {
                    Some(table_frame) => {
                        let mut t3 = L3Table::new();
                        let ghost fresh_table: L3Table = t3;
                        let r = t3.map_at(i3, i2, i1, frame, flags, allocator);
                        let ghost post_table: L3Table = t3;
                        *slot = Some(L4Entry { table_frame, table: Box::new(t3) });
                        proof {
                            assert forall|j4: int, j3: int, j2: int, j1: int|
                                0 <= j4 < 512 && 0 <= j3 < 512 && 0 <= j2 < 512 && 0 <= j1 < 512
                                    && !(j4 == i4 as int && j3 == i3 as int && j2 == i2 as int && j1
                                    == i1 as int) implies #[trigger] self.leaf(j4, j3, j2, j1)
                                == old(self).leaf(j4, j3, j2, j1) by {
                                if j4 == i4 as int {
                                    assert(old(self).leaf(j4, j3, j2, j1) is None);
                                    if !(j3 == i3 as int && j2 == i2 as int && j1 == i1 as int) {
                                        assert(post_table.leaf(j3, j2, j1) == fresh_table.leaf(
                                            j3,
                                            j2,
                                            j1,
                                        ));
                                    }
                                    assert(post_table.leaf(j3, j2, j1) is None);
                                } else {
                                    assert(self.slots@[j4] == old(self).slots@[j4]);
                                }
                            }
                        }
                        r
                    },
                    None => Err(MapError::FrameAllocationFailed),
                }
            },
        }
    }
}

/// The translator over the active four-level hierarchy, together with the
/// boot-fixed offset that makes physical memory reachable from kernel
/// virtual addresses.
pub struct OffsetPageTable {
    l4: L4Table,
    physical_memory_offset: u64,
}

impl OffsetPageTable {
    /// The whole hierarchy is well-formed: every table has 512 slots and
    /// every leaf frame is an aligned physical address.
    pub closed spec fn wf(self) -> bool {
        self.l4.wf()
    }

    /// The boot-fixed physical-memory offset the translator carries.
    pub closed spec fn phys_offset(self) -> u64 {
        self.physical_memory_offset
    }

    /// The leaf entry the four-level walk reaches for the page holding
    /// `addr`, if every level on the way is present.
    pub closed spec fn page_entry(self, addr: u64) -> Option<LeafEntry> {
        self.l4.leaf(
            l4_index(addr) as int,
            l3_index(addr) as int,
            l2_index(addr) as int,
            l1_index(addr) as int,
        )
    }

    /// How many intermediate tables a mapping of `addr` still has to
    /// create: between 0 and 3.
    pub closed spec fn missing_tables(self, addr: u64) -> int {
        self.l4.missing(l4_index(addr) as int, l3_index(addr) as int, l2_index(addr) as int)
    }
}

impl View for OffsetPageTable {
    type V = Map<u64, LeafEntry>;

    /// The installed mappings as a mathematical map over valid pages.
    open spec fn view(&self) -> Map<u64, LeafEntry> {
        Map::new(
            |p: u64| page_valid(p) && self.page_entry(p) is Some,
            |p: u64| self.page_entry(p)->0,
        )
    }
}

/// Builds the translator for an address space whose top-level table holds
/// no mappings yet, carrying the boot-fixed physical-memory offset. Locating
/// the hardware's active table behind the offset is the unverified boot
/// shim's step; the translator itself owns its tables.
pub fn init(physical_memory_offset: u64) -> (r: OffsetPageTable)
    ensures
        r.wf(),
        r.phys_offset() == physical_memory_offset,
        forall|q: u64| #[trigger] r.page_entry(q) is None,
        r@ == Map::<u64, LeafEntry>::empty(),
{
    let t = OffsetPageTable { l4: L4Table::new(), physical_memory_offset };
    proof {
        assert forall|q: u64| #[trigger] t.page_entry(q) is None by {
            lemma_index_bounds(q);
        }
        assert(t@ =~= Map::<u64, LeafEntry>::empty());
    }
    t
}

impl OffsetPageTable {
    /// The boot-fixed offset that turns any physical address into a mapped
    /// kernel virtual address.
    pub fn physical_memory_offset(&self) -> (r: u64)
        ensures
            r == self.phys_offset(),
    {
        self.physical_memory_offset
    }

    /// Looks up the leaf entry for the page containing the given canonical
    /// virtual address, without allocating: `None` when any level on the
    /// way is absent.
    pub fn translate_page(&self, addr: u64) -> (r: Option<LeafEntry>)
        requires
            self.wf(),
            canonical(addr),
        ensures
            r == self.page_entry(addr),
    {
        let i4 = p4_index_of(addr);
        let i3 = p3_index_of(addr);
        let i2 = p2_index_of(addr);
        let i1 = p1_index_of(addr);
        self.l4.find_leaf(i4, i3, i2, i1)
    }

    /// Translates a canonical virtual address to the physical address it
    /// maps to: the leaf frame plus the offset within the page.
    pub fn translate_addr(&self, addr: u64) -> (r: Option<u64>)
        requires
            self.wf(),
            canonical(addr),
        ensures
            match self.page_entry(addr) {
                Some(e) => r == Some((e.frame + addr % 4096) as u64),
                None => r is None,
            },
    {
        proof {
            self.lemma_page_entry_frame_bounds(addr);
        }
        match self.translate_page(addr) {
            Some(e) => Some(e.frame + addr % 4096),
            None => None,
        }
    }

    /// Installs `page -> frame` with the given flags, drawing a frame from
    /// the allocator for every intermediate table still missing on the way.
    /// A page that already has a leaf entry is never overwritten: the call
    /// reports `AlreadyMapped` and changes nothing. Success is owed exactly
    /// when the page is unmapped and the allocator still holds as many
    /// frames as tables are missing; no other page's translation ever
    /// changes.
    pub fn map_to(
        &mut self,
        page: u64,
        frame: u64,
        flags: PageFlags,
        frame_allocator: &mut BootInfoFrameAllocator,
    ) -> (r: Result<(), MapError>)
        requires
            old(self).wf(),
            page_valid(page),
            frame < PHYS_ADDR_LIMIT,
            frame % 4096 == 0,
            old(frame_allocator).wf(),
            old(frame_allocator).allocated() + 3 <= usize::MAX,
        ensures
            final(self).wf(),
            final(self).phys_offset() == old(self).phys_offset(),
            final(frame_allocator).wf(),
            final(frame_allocator).catalog() == old(frame_allocator).catalog(),
            0 <= old(self).missing_tables(page) <= 3,
            forall|q: u64|
                page_valid(q) && q != page ==> #[trigger] final(self).page_entry(q) == old(self).page_entry(q),
            match r {
                Ok(()) => old(self).page_entry(page) is None && final(self).page_entry(page)
                    == Some(LeafEntry { frame, flags }) && final(self)@ == old(self)@.insert(
                    page,
                    LeafEntry { frame, flags },
                ) && old(frame_allocator).frames_left() >= old(self).missing_tables(page) && final(frame_allocator).allocated() == old(frame_allocator).allocated() + old(self).missing_tables(page),
                Err(MapError::AlreadyMapped) => old(self).page_entry(page) is Some && final(self).page_entry(page) == old(self).page_entry(page) && final(self)@ == old(self)@
                    && final(frame_allocator).allocated() == old(frame_allocator).allocated(),
                Err(MapError::FrameAllocationFailed) => old(self).page_entry(page) is None
                    && final(self).page_entry(page) is None && final(self)@ == old(self)@ && old(frame_allocator).frames_left() < old(self).missing_tables(page) && final(frame_allocator).allocated() == old(frame_allocator).allocated() + old(frame_allocator).frames_left() + 1,
            },
    {
        let i4 = p4_index_of(page);
        let i3 = p3_index_of(page);
        let i2 = p2_index_of(page);
        let i1 = p1_index_of(page);
        let r = self.l4.map_at(i4, i3, i2, i1, frame, flags, frame_allocator);
        proof {
            assert forall|q: u64| page_valid(q) && q != page implies #[trigger] self.page_entry(q)
                == old(self).page_entry(q) by {
                lemma_index_bounds(q);
                if l4_index(q) == l4_index(page) && l3_index(q) == l3_index(page) && l2_index(q)
                    == l2_index(page) && l1_index(q) == l1_index(page) {
                    lemma_page_index_injective(page, q);
                }
            }
            let le = LeafEntry { frame, flags };
            match r {
                Ok(()) => {
                    assert(self@ =~= old(self)@.insert(page, le));
                },
                Err(_) => {
                    assert(self@ =~= old(self)@);
                },
            }
        }
        r
    }

    /// Law: translation is exactly the view. A page in the view translates
    /// to its entry — so mapping a page and then translating it returns the
    /// mapped frame — and a page outside the view translates to nothing.
    pub proof fn lemma_translation_matches_view(self, page: u64)
        requires
            page_valid(page),
        ensures
            self@.dom().contains(page) <==> self.page_entry(page) is Some,
            self.page_entry(page) matches Some(e) ==> self@[page] == e,
    {
    }

    /// A well-formed hierarchy only holds aligned leaf frames below the
    /// physical limit.
    proof fn lemma_page_entry_frame_bounds(self, addr: u64)
        requires
            self.wf(),
        ensures
            match self.page_entry(addr) {
                Some(e) => e.frame < PHYS_ADDR_LIMIT && e.frame % 4096 == 0,
                None => true,
            },
    {
        lemma_index_bounds(addr);
        let i4 = l4_index(addr) as int;
        let i3 = l3_index(addr) as int;
        let i2 = l2_index(addr) as int;
        let i1 = l1_index(addr) as int;
        if self.l4.slots@[i4] is Some {
            let t3 = self.l4.slots@[i4]->0.table;
            if t3.slots@[i3] is Some {
                let t2 = t3.slots@[i3]->0.table;
                if t2.slots@[i2] is Some {
                    let t1 = t2.slots@[i2]->0.table;
                    assert(t1.wf());
                }
            }
        }
    }
}

} // verus!
