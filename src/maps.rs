use vstd::prelude::*;

use crate::process::{RegionInfo, MEM_COMMIT, MEM_MAPPED, MEM_PRIVATE};

verus! {

/// State of addresses that no mapping covers.
pub const MEM_FREE: u32 = 0x10000;
/// Protection of memory that cannot be read.
pub const PAGE_NOACCESS: u32 = 0x01;
/// Protection of memory that can be read only.
pub const PAGE_READONLY: u32 = 0x02;
/// Protection of memory that can be read and written.
pub const PAGE_READWRITE: u32 = 0x04;

/// One mapping of a process's address space, `start` up to `end`, as a
/// mapping table lists it.
#[derive(Clone, Copy, PartialEq, Eq, Debug, Structural)]
pub struct Mapping {
    pub start: usize,
    pub end: usize,
    pub readable: bool,
    pub writable: bool,
    pub private: bool,
}

/// The protection that a mapping's access rights stand for.
pub open spec fn protection(m: Mapping) -> u32 {
    if m.readable && m.writable {
        PAGE_READWRITE
    } else if m.readable {
        PAGE_READONLY
    } else {
        PAGE_NOACCESS
    }
}

/// What a query at `cursor` reports when `m` is the first mapping that ends
/// past it: the gap up to `m`, or the rest of `m`.
pub open spec fn region_at(m: Mapping, cursor: usize) -> RegionInfo {
    if m.start > cursor {
        RegionInfo { base: cursor, size: (m.start - cursor) as usize, state: MEM_FREE, protect: PAGE_NOACCESS, kind: 0 }
    } else {
        RegionInfo {
            base: cursor,
            size: (m.end - cursor) as usize,
            state: MEM_COMMIT,
            protect: protection(m),
            kind: if m.private { MEM_PRIVATE } else { MEM_MAPPED },
        }
    }
}

/// The reply to a region query at `cursor`: drawn from the first mapping that
/// ends past it, or nothing when there is none.
pub open spec fn query(maps: Seq<Mapping>, cursor: usize) -> Option<RegionInfo>
    decreases maps.len(),
{
    if maps.len() == 0 {
        None
    } else if maps[0].end > cursor {
        Some(region_at(maps[0], cursor))
    } else {
        query(maps.drop_first(), cursor)
    }
}

/// Answers a region query at `cursor` from a table of mappings: the region
/// that holds `cursor`, drawn from the first mapping that ends past it, or
/// `None` when every mapping ends at or before it.
pub fn describe(maps: &Vec<Mapping>, cursor: usize) -> (r: Option<RegionInfo>)
    ensures
        r is None <==> forall|i: int| 0 <= i < maps@.len() ==> (#[trigger] maps@[i]).end <= cursor,
        r matches Some(info) ==> exists|i: int| {
            &&& 0 <= i < maps@.len()
            &&& (#[trigger] maps@[i]).end > cursor
            &&& forall|j: int| 0 <= j < i ==> (#[trigger] maps@[j]).end <= cursor
            &&& info == region_at(maps@[i], cursor)
        },
        r == query(maps@, cursor),
{
    let mut i: usize = 0;
    assert(maps@.subrange(0, maps@.len() as int) == maps@);
    while i < maps.len()
        invariant
            i <= maps@.len(),
            forall|j: int| 0 <= j < i ==> (#[trigger] maps@[j]).end <= cursor,
            query(maps@, cursor) == query(maps@.subrange(i as int, maps@.len() as int), cursor),
        decreases maps@.len() - i,
    {
        let m = maps[i];
        proof {
            let rest = maps@.subrange(i as int, maps@.len() as int);
            assert(rest[0] == m);
            assert(rest.drop_first() == maps@.subrange(i + 1, maps@.len() as int));
        }
        if m.end > cursor {
            let protect = if m.readable && m.writable {
                PAGE_READWRITE
            } else if m.readable {
                PAGE_READONLY
            } else {
                PAGE_NOACCESS
            };
            let info = if m.start > cursor {
                RegionInfo { base: cursor, size: m.start - cursor, state: MEM_FREE, protect: PAGE_NOACCESS, kind: 0 }
            } else {
                RegionInfo {
                    base: cursor,
                    size: m.end - cursor,
                    state: MEM_COMMIT,
                    protect,
                    kind: if m.private { MEM_PRIVATE } else { MEM_MAPPED },
                }
            };
            assert(info == region_at(maps@[i as int], cursor));
            return Some(info);
        }
        i = i + 1;
    }
    assert(maps@.subrange(i as int, maps@.len() as int).len() == 0);
    None
}

} // verus!
