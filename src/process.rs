use vstd::prelude::*;
use rayon::iter::{IntoParallelRefIterator, ParallelIterator};
use read_process_memory::{Pid, ProcessHandle};

use crate::address::Address;
use crate::maps::{describe, query, Mapping};
use crate::region::Region;
use crate::remote::open_handle;
use crate::value::Value;

verus! {

/// Memory that has physical backing.
pub const MEM_COMMIT: u32 = 0x1000;
/// Protection bit of a guard page, which faults on first access.
pub const PAGE_GUARD: u32 = 0x100;
/// Memory private to the process.
pub const MEM_PRIVATE: u32 = 0x20000;
/// Memory mapped from a file or a section.
pub const MEM_MAPPED: u32 = 0x40000;

/// The failure to open the target process, with the operating system's code
/// when it gave one.
#[derive(Clone, Copy, PartialEq, Eq, Debug, Structural)]
pub enum ProcessError {
    OpenError(Option<i32>),
}

/// What the operating system reports of the region that starts at or holds a
/// queried address.
#[derive(Clone, Copy, PartialEq, Eq, Debug, Structural)]
pub struct RegionInfo {
    pub base: usize,
    pub size: usize,
    pub state: u32,
    pub protect: u32,
    pub kind: u32,
}

/// The inclusion policy: committed, not a guard page, and private or mapped.
pub open spec fn included(state: u32, protect: u32, kind: u32) -> bool {
    &&& state == MEM_COMMIT
    &&& protect & PAGE_GUARD == 0
    &&& (kind == MEM_PRIVATE || kind == MEM_MAPPED)
}

pub fn is_included(state: u32, protect: u32, kind: u32) -> (r: bool)
    ensures
        r == included(state, protect, kind),
{
    state == MEM_COMMIT && protect & PAGE_GUARD == 0 && (kind == MEM_PRIVATE || kind == MEM_MAPPED)
}

/// A reported region that is kept as a `Region` of the scan.
pub open spec fn admitted(info: RegionInfo) -> bool {
    &&& info.size > 0
    &&& info.base + info.size <= usize::MAX + 1
    &&& included(info.state, info.protect, info.kind)
}

/// Where the walk goes after `reply` to the query at `cursor`: on by the
/// reported size, or nowhere once the space ends, a size is zero, or the
/// address space is left.
pub open spec fn next_cursor(cursor: usize, reply: Option<RegionInfo>) -> Option<usize> {
    match reply {
        None => None,
        Some(info) => if info.size == 0 || cursor + info.size > usize::MAX {
            None
        } else {
            Some((cursor + info.size) as usize)
        },
    }
}

/// The cursors at which a walk from `cursor` queries, given the replies it gets
/// in turn.
pub open spec fn walk_trace(cursor: usize, replies: Seq<Option<RegionInfo>>) -> Seq<usize>
    decreases replies.len(),
{
    if replies.len() == 0 {
        seq![cursor]
    } else {
        match next_cursor(cursor, replies[0]) {
            Some(c) => seq![cursor] + walk_trace(c, replies.drop_first()),
            None => seq![cursor],
        }
    }
}

/// A walk of the address space never comes back to an address: each cursor
/// lies past the one before by the size reported there, and a reported size
/// of zero ends the walk.
pub proof fn lemma_walk_advances(cursor: usize, replies: Seq<Option<RegionInfo>>)
    ensures
        walk_trace(cursor, replies).len() <= replies.len() + 1,
        forall|i: int, j: int|
            0 <= i < j < walk_trace(cursor, replies).len() ==> walk_trace(cursor, replies)[i]
                < walk_trace(cursor, replies)[j],
        forall|i: int|
            0 <= i < walk_trace(cursor, replies).len() - 1 ==> (#[trigger] replies[i] matches Some(info)
                && walk_trace(cursor, replies)[i + 1] == walk_trace(cursor, replies)[i] + info.size),
        forall|info: RegionInfo| info.size == 0 ==> #[trigger] next_cursor(cursor, Some(info)) is None,
    decreases replies.len(),
{
    if replies.len() > 0 {
        if let Some(c) = next_cursor(cursor, replies[0]) {
            lemma_walk_advances(c, replies.drop_first());
            let t = walk_trace(cursor, replies);
            let rest = walk_trace(c, replies.drop_first());
            assert(t == seq![cursor] + rest);
            assert(rest[0] == c);
            assert forall|i: int, j: int| 0 <= i < j < t.len() implies t[i] < t[j] by {
                if i == 0 {
                    if j > 1 {
                        assert(rest[0] < rest[j - 1]);
                    }
                } else {
                    assert(rest[i - 1] < rest[j - 1]);
                }
            }
            assert forall|i: int| 0 <= i < t.len() - 1 implies (#[trigger] replies[i] matches Some(info)
                && t[i + 1] == t[i] + info.size) by {
                if i > 0 {
                    assert(replies.drop_first()[i - 1] == replies[i]);
                }
            }
        }
    }
}

/// The reported regions that a walk from `cursor` over the mapping table
/// `maps` keeps, in walk order.
pub open spec fn walk_kept(maps: Seq<Mapping>, cursor: usize) -> Seq<RegionInfo>
    decreases usize::MAX - cursor,
{
    let reply = query(maps, cursor);
    let here = match reply {
        Some(info) => if admitted(info) {
            seq![info]
        } else {
            seq![]
        },
        None => seq![],
    };
    match next_cursor(cursor, reply) {
        Some(c) => if c > cursor {
            here + walk_kept(maps, c)
        } else {
            here
        },
        None => here,
    }
}

/// Every region that a walk keeps is one that the inclusion policy admits.
pub proof fn lemma_walk_kept_admitted(maps: Seq<Mapping>, cursor: usize)
    ensures
        forall|i: int| 0 <= i < walk_kept(maps, cursor).len() ==> admitted(#[trigger] walk_kept(maps, cursor)[i]),
    decreases usize::MAX - cursor,
{
    let reply = query(maps, cursor);
    let here: Seq<RegionInfo> = match reply {
        Some(info) => if admitted(info) {
            seq![info]
        } else {
            seq![]
        },
        None => seq![],
    };
    let w = walk_kept(maps, cursor);
    assert forall|i: int| 0 <= i < here.len() implies admitted(#[trigger] here[i]) by {}
    if let Some(c) = next_cursor(cursor, reply) {
        if c > cursor {
            lemma_walk_kept_admitted(maps, c);
            let rest = walk_kept(maps, c);
            assert(w == here + rest);
            assert forall|i: int| 0 <= i < w.len() implies admitted(#[trigger] w[i]) by {
                if i >= here.len() {
                    assert(w[i] == rest[i - here.len()]);
                }
            }
        } else {
            assert(w == here);
        }
    } else {
        assert(w == here);
    }
}

/// A region of the target read as a whole and the candidates found in it,
/// for each region in turn: `out` is what they make one after another.
pub open spec fn joined(regions: Seq<Region>, value: u32, out: Seq<Value>) -> bool {
    exists|parts: Seq<Seq<Value>>| {
        &&& parts.len() == regions.len()
        &&& forall|i: int| 0 <= i < parts.len() ==> #[trigger] regions[i].searched(value, parts[i])
        &&& out == parts.flatten()
    }
}

/// Relies on rayon's `par_iter().map(..).collect()` over a slice, which calls
/// the closure once per item and collects the results in the slice's order.
#[verifier::external_body]
fn search_each(regions: &Vec<Region>, value: u32) -> (r: Vec<Vec<Value>>)
    requires
        forall|i: int| 0 <= i < regions@.len() ==> (#[trigger] regions@[i]).wf(),
    ensures
        r@.len() == regions@.len(),
        forall|i: int| 0 <= i < r@.len() ==> #[trigger] regions@[i].searched(value, r@[i]@),
{
    regions.par_iter().map(|region| region.search(value)).collect()
}

/// The connection to a target process and the regions of its last walk.
pub struct Process {
    pub handle: ProcessHandle,
    pub regions: Vec<Region>,
}

impl Process {
    pub open spec fn wf(&self) -> bool {
        forall|i: int| 0 <= i < self.regions@.len() ==> (#[trigger] self.regions@[i]).wf()
    }

    /// Opens the process `pid` for reading.
    pub fn new(pid: Pid) -> (r: Result<Self, ProcessError>)
        ensures
            r matches Ok(p) ==> p.regions@.len() == 0 && p.wf(),
    {
        match open_handle(pid) {
            Ok(handle) => Ok(Process { handle, regions: Vec::new() }),
            Err(code) => Err(ProcessError::OpenError(code)),
        }
    }

    /// Starts a new walk of the address space: forgets the regions of the
    /// last one and returns the first address to query.
    pub fn begin_walk(&mut self) -> (r: usize)
        ensures
            r == 0,
            final(self).handle == old(self).handle,
            final(self).regions@.len() == 0,
            final(self).wf(),
    {
        self.regions.clear();
        0
    }

    /// Takes the reply to the query at `cursor`: keeps the region if the policy
    /// admits it, and returns the next address to query, or `None` when the
    /// walk is over.
    pub fn visit(&mut self, cursor: usize, reply: Option<RegionInfo>) -> (r: Option<usize>)
        requires
            old(self).wf(),
        ensures
            r == next_cursor(cursor, reply),
            final(self).wf(),
            final(self).handle == old(self).handle,
            match reply {
                Some(info) if admitted(info) => {
                    &&& final(self).regions@.len() == old(self).regions@.len() + 1
                    &&& final(self).regions@.drop_last() == old(self).regions@
                    &&& final(self).regions@.last().base.0 == info.base
                    &&& final(self).regions@.last().size == info.size
                    &&& final(self).regions@.last().handle == old(self).handle
                },
                _ => final(self).regions@ == old(self).regions@,
            },
    {
        match reply {
            None => None,
            Some(info) => {
                if info.size > 0 && info.base <= usize::MAX - (info.size - 1)
                    && is_included(info.state, info.protect, info.kind) {
                    let region = Region::new(Address::new(info.base), self.handle.clone(), info.size);
                    self.regions.push(region);
                    assert(self.regions@.drop_last() == old(self).regions@);
                }
                if info.size == 0 || cursor > usize::MAX - info.size {
                    None
                } else {
                    Some(cursor + info.size)
                }
            },
        }
    }

    /// Walks the address space from address zero, answering each query from
    /// the mapping table `maps`, and keeps the regions that the policy admits.
    pub fn fetch_regions(&mut self, maps: &Vec<Mapping>)
        ensures
            final(self).wf(),
            final(self).handle == old(self).handle,
            final(self).regions@.len() == walk_kept(maps@, 0).len(),
            forall|i: int| 0 <= i < walk_kept(maps@, 0).len() ==> admitted(#[trigger] walk_kept(maps@, 0)[i]),
            forall|i: int| 0 <= i < final(self).regions@.len() ==> {
                &&& (#[trigger] final(self).regions@[i]).base.0 == walk_kept(maps@, 0)[i].base
                &&& final(self).regions@[i].size == walk_kept(maps@, 0)[i].size
                &&& final(self).regions@[i].handle == old(self).handle
            },
    {
        proof {
            lemma_walk_kept_admitted(maps@, 0);
        }
        let mut cursor = self.begin_walk();
        let ghost mut acc: Seq<RegionInfo> = seq![];
        loop
            invariant
                self.wf(),
                self.handle == old(self).handle,
                acc + walk_kept(maps@, cursor) == walk_kept(maps@, 0),
                self.regions@.len() == acc.len(),
                forall|i: int| 0 <= i < self.regions@.len() ==> {
                    &&& (#[trigger] self.regions@[i]).base.0 == acc[i].base
                    &&& self.regions@[i].size == acc[i].size
                    &&& self.regions@[i].handle == old(self).handle
                },
            ensures
                self.wf(),
                self.handle == old(self).handle,
                acc == walk_kept(maps@, 0),
                self.regions@.len() == acc.len(),
                forall|i: int| 0 <= i < self.regions@.len() ==> {
                    &&& (#[trigger] self.regions@[i]).base.0 == acc[i].base
                    &&& self.regions@[i].size == acc[i].size
                    &&& self.regions@[i].handle == old(self).handle
                },
            decreases usize::MAX - cursor,
        {
            let reply = describe(maps, cursor);
            let ghost here = walk_kept(maps@, cursor);
            let ghost before = self.regions@;
            let next = self.visit(cursor, reply);
            proof {
                let kept_here: Seq<RegionInfo> = match reply {
                    Some(info) => if admitted(info) {
                        seq![info]
                    } else {
                        seq![]
                    },
                    None => seq![],
                };
                let acc2 = acc + kept_here;
                assert forall|i: int| 0 <= i < self.regions@.len() implies {
                    &&& (#[trigger] self.regions@[i]).base.0 == acc2[i].base
                    &&& self.regions@[i].size == acc2[i].size
                    &&& self.regions@[i].handle == old(self).handle
                } by {
                    if i < before.len() {
                        assert(self.regions@[i] == before[i]);
                    }
                }
                match next {
                    Some(c) => {
                        assert(here == kept_here + walk_kept(maps@, c));
                        assert(acc2 + walk_kept(maps@, c) == acc + here);
                    },
                    None => {
                        assert(here == kept_here);
                    },
                }
                acc = acc2;
            }
            match next {
                Some(c) => {
                    cursor = c;
                },
                None => {
                    assert(acc == walk_kept(maps@, 0));
                    break;
                },
            }
        }
    }

    /// Scans every region of the last walk, in parallel, for words that hold
    /// `value`: the candidates of each region in address order, one region
    /// after another.
    pub fn search(&self, value: u32) -> (r: Vec<Value>)
        requires
            self.wf(),
        ensures
            joined(self.regions@, value, r@),
    {
        let mut parts = search_each(&self.regions, value);
        let ghost all = parts@.map_values(|p: Vec<Value>| p@);
        let mut out: Vec<Value> = Vec::new();
        let ghost mut done: Seq<Seq<Value>> = seq![];
        while parts.len() > 0
            invariant
                all.len() == self.regions@.len(),
                forall|i: int| 0 <= i < all.len() ==> #[trigger] self.regions@[i].searched(value, all[i]),
                done.len() + parts@.len() == all.len(),
                done == all.subrange(0, done.len() as int),
                forall|i: int| 0 <= i < parts@.len() ==> #[trigger] parts@[i]@ == all[done.len() + i],
                out@ == done.flatten(),
            decreases parts@.len(),
        {
            let mut part = parts.remove(0);
            proof {
                assert(part@ == all[done.len() as int]);
                done.lemma_flatten_push(part@);
                assert(all.subrange(0, done.len() as int + 1) == done.push(part@));
                done = done.push(part@);
            }
            out.append(&mut part);
        }
        assert(done == all);
        out
    }
}

} // verus!
