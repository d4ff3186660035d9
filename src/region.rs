use vstd::prelude::*;
use read_process_memory::ProcessHandle;

use crate::address::Address;
use crate::remote::{read_remote, MemoryReadError};
use crate::value::Value;
use crate::word::{read_le_u32, word_at};

verus! {

/// A contiguous span of the target's memory, read as a whole.
pub struct Region {
    pub base: Address,
    pub handle: ProcessHandle,
    pub size: usize,
}

/// The indices, in increasing order, of the words among the first `n` of `d`
/// that hold `value`.
pub open spec fn hits(d: Seq<u8>, value: u32, n: nat) -> Seq<int>
    decreases n,
{
    if n == 0 {
        seq![]
    } else {
        let p = hits(d, value, (n - 1) as nat);
        if word_at(d, n - 1) == value {
            p.push(n - 1)
        } else {
            p
        }
    }
}

/// The indices of the matching words are exactly the words among the first
/// `n` that hold `value`, and they increase.
pub proof fn lemma_hits(d: Seq<u8>, value: u32, n: nat)
    ensures
        forall|k: int| hits(d, value, n).contains(k) <==> 0 <= k < n && word_at(d, k) == value,
        forall|i: int, j: int|
            0 <= i < j < hits(d, value, n).len() ==> hits(d, value, n)[i] < hits(d, value, n)[j],
        forall|i: int| 0 <= i < hits(d, value, n).len() ==> 0 <= #[trigger] hits(d, value, n)[i] < n,
    decreases n,
{
    if n > 0 {
        lemma_hits(d, value, (n - 1) as nat);
        let p = hits(d, value, (n - 1) as nat);
        if word_at(d, n - 1) == value {
            assert forall|k: int| hits(d, value, n).contains(k) <==> 0 <= k < n && word_at(d, k) == value by {
                if hits(d, value, n).contains(k) {
                    let i = choose|i: int| 0 <= i < hits(d, value, n).len() && hits(d, value, n)[i] == k;
                    if i < p.len() {
                        assert(p.contains(k));
                    }
                }
                if 0 <= k < n && word_at(d, k) == value {
                    if k < n - 1 {
                        let i = choose|i: int| 0 <= i < p.len() && p[i] == k;
                        assert(hits(d, value, n)[i] == k);
                    } else {
                        assert(hits(d, value, n)[p.len() as int] == k);
                    }
                }
            }
        }
    }
}

/// A scan finds a candidate at offset `4 * k` from the span's base exactly when
/// the `k`-th whole word of the span holds the value; a trailing part of fewer
/// than four bytes is never a word. The candidates come in increasing address
/// order and all hold the value.
pub proof fn lemma_scan_exact(region: Region, d: Seq<u8>, value: u32, out: Seq<Value>)
    requires
        region.scanned(d, value, out),
    ensures
        forall|k: int|
            (exists|i: int| 0 <= i < out.len() && #[trigger] out[i].region.base.0 == region.base.0 + 4 * k)
                <==> (0 <= k && 4 * k + 4 <= d.len() && #[trigger] word_at(d, k) == value),
        forall|i: int, j: int| 0 <= i < j < out.len() ==> out[i].region.base.0 < out[j].region.base.0,
        forall|i: int| 0 <= i < out.len() ==> (#[trigger] out[i]).value == value && out[i].region.size == 4,
{
    let n = d.len() / 4;
    let h = hits(d, value, n);
    lemma_hits(d, value, n);
    assert forall|k: int|
        (exists|i: int| 0 <= i < out.len() && #[trigger] out[i].region.base.0 == region.base.0 + 4 * k)
            <==> (0 <= k && 4 * k + 4 <= d.len() && word_at(d, k) == value) by {
        assert((0 <= k && 4 * k + 4 <= d.len()) <==> (0 <= k < n)) by (nonlinear_arith)
            requires
                n == d.len() / 4,
        ;
        if exists|i: int| 0 <= i < out.len() && #[trigger] out[i].region.base.0 == region.base.0 + 4 * k {
            let i = choose|i: int| 0 <= i < out.len() && #[trigger] out[i].region.base.0 == region.base.0 + 4 * k;
            assert(h[i] == k);
            assert(h.contains(k));
        }
        if 0 <= k < n && word_at(d, k) == value {
            assert(h.contains(k));
            let i = choose|i: int| 0 <= i < h.len() && h[i] == k;
            assert(out[i].region.base.0 == region.base.0 + 4 * k);
        }
    }
    assert forall|i: int, j: int| 0 <= i < j < out.len() implies out[i].region.base.0 < out[j].region.base.0 by {
        assert(h[i] < h[j]);
        assert(out[i].region.base.0 == region.base.0 + 4 * h[i]);
        assert(out[j].region.base.0 == region.base.0 + 4 * h[j]);
    }
}

impl Region {
    /// The span is not empty and ends within the address space.
    pub open spec fn wf(&self) -> bool {
        &&& self.size > 0
        &&& self.base.0 + self.size <= usize::MAX + 1
    }

    /// `out` is the list of candidates that a scan for `value` finds when the
    /// span reads as `d`: one per word of `d` that holds `value`, in the order
    /// of their addresses.
    pub open spec fn scanned(&self, d: Seq<u8>, value: u32, out: Seq<Value>) -> bool {
        let h = hits(d, value, d.len() / 4);
        &&& out.len() == h.len()
        &&& forall|i: int| 0 <= i < out.len() ==> {
            &&& (#[trigger] out[i]).region.base.0 == self.base.0 + 4 * h[i]
            &&& out[i].region.handle == self.handle
            &&& out[i].region.size == 4
            &&& out[i].value == value
        }
    }

    /// `out` is what a search for `value` gives on the outcome `data` of the
    /// span's read: nothing when the read failed, else the scan of what it read.
    pub open spec fn found_in(&self, data: Result<Vec<u8>, MemoryReadError>, value: u32, out: Seq<Value>) -> bool {
        match data {
            Ok(d) => self.scanned(d@, value, out),
            Err(_) => out.len() == 0,
        }
    }

    /// `out` is what a search for `value` gives on some outcome of a read of
    /// the span: nothing when it failed, or the scan of contents of the span's
    /// length.
    pub open spec fn searched(&self, value: u32, out: Seq<Value>) -> bool {
        exists|data: Result<Vec<u8>, MemoryReadError>|
            (data matches Ok(d) ==> d@.len() == self.size) && #[trigger] self.found_in(data, value, out)
    }

    pub fn new(base: Address, handle: ProcessHandle, size: usize) -> (r: Self)
        requires
            size > 0,
            base.0 + size <= usize::MAX + 1,
        ensures
            r.base == base,
            r.handle == handle,
            r.size == size,
            r.wf(),
    {
        Region { base, handle, size }
    }

    /// Reads the whole span from the target.
    pub fn get(&self) -> (r: Result<Vec<u8>, MemoryReadError>)
        ensures
            r matches Ok(v) ==> v@.len() == self.size,
    {
        read_remote(&self.handle, self.base.0, self.size)
    }

    /// The candidates for `value` in the span, given what it read as.
    pub fn scan(&self, data: &Vec<u8>, value: u32) -> (r: Vec<Value>)
        requires
            self.wf(),
            data@.len() == self.size,
        ensures
            self.scanned(data@, value, r@),
            forall|k: int|
                (exists|i: int| 0 <= i < r@.len() && #[trigger] r@[i].region.base.0 == self.base.0 + 4 * k)
                    <==> (0 <= k && 4 * k + 4 <= data@.len() && #[trigger] word_at(data@, k) == value),
    {
        let n: usize = data.len() / 4;
        let mut out: Vec<Value> = Vec::new();
        let mut k: usize = 0;
        while k < n
            invariant
                k <= n,
                n == data@.len() / 4,
                self.wf(),
                data@.len() == self.size,
                ({
                    let h = hits(data@, value, k as nat);
                    &&& out@.len() == h.len()
                    &&& forall|i: int| 0 <= i < out@.len() ==> {
                        &&& (#[trigger] out@[i]).region.base.0 == self.base.0 + 4 * h[i]
                        &&& out@[i].region.handle == self.handle
                        &&& out@[i].region.size == 4
                        &&& out@[i].value == value
                    }
                }),
            decreases n - k,
        {
            assert(4 * k + 4 <= data@.len()) by (nonlinear_arith)
                requires
                    k < n,
                    n == data@.len() / 4,
            ;
            let w = read_le_u32(data, 4 * k);
            proof {
                assert(hits(data@, value, (k + 1) as nat) == {
                    let p = hits(data@, value, k as nat);
                    if word_at(data@, k as int) == value {
                        p.push(k as int)
                    } else {
                        p
                    }
                });
            }
            if w == value {
                let at = Address::new(self.base.0 + 4 * k);
                let cell = Region::new(at, self.handle.clone(), 4);
                out.push(Value::new(cell, value));
            }
            k = k + 1;
        }
        proof {
            lemma_scan_exact(*self, data@, value, out@);
            let h = hits(data@, value, (data@.len() / 4) as nat);
            lemma_hits(data@, value, (data@.len() / 4) as nat);
            assert forall|k: int|
                (exists|i: int| 0 <= i < out@.len() && #[trigger] out@[i].region.base.0 == self.base.0 + 4 * k)
                    implies (0 <= k && 4 * k + 4 <= data@.len() && word_at(data@, k) == value) by {
                let i = choose|i: int| 0 <= i < out@.len() && #[trigger] out@[i].region.base.0 == self.base.0 + 4 * k;
                assert(h[i] == k);
                assert(h.contains(k));
                assert(4 * k + 4 <= data@.len()) by (nonlinear_arith)
                    requires
                        0 <= k < data@.len() / 4,
                ;
            }
        }
        out
    }

    /// The candidates for `value` given the outcome of the span's read: none
    /// when the read failed.
    pub fn found(&self, data: &Result<Vec<u8>, MemoryReadError>, value: u32) -> (r: Vec<Value>)
        requires
            self.wf(),
            data matches Ok(d) ==> d@.len() == self.size,
        ensures
            data is Err ==> r@.len() == 0,
            data matches Ok(d) ==> self.scanned(d@, value, r@),
            self.found_in(*data, value, r@),
    {
        match data {
            Ok(d) => self.scan(d, value),
            Err(_) => Vec::new(),
        }
    }

    /// Reads the span and returns the candidates for `value` in it: none when
    /// the read fails.
    pub fn search(&self, value: u32) -> (r: Vec<Value>)
        requires
            self.wf(),
        ensures
            self.searched(value, r@),
    {
        let data = self.get();
        self.found(&data, value)
    }
}

} // verus!
