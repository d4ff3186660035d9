use vstd::prelude::*;
use rayon::iter::{IntoParallelIterator, ParallelIterator};

use crate::region::Region;
use crate::remote::MemoryReadError;
use crate::word::{le_word, read_le_u32};

verus! {

/// A comparison of a candidate's last value with its new one.
#[derive(Clone, Copy, PartialEq, Eq, Debug, Structural)]
pub enum Predicate {
    Increased,
    Decreased,
    Unchanged,
    Changed,
}

impl Predicate {
    pub open spec fn holds(self, last: u32, new: u32) -> bool {
        match self {
            Predicate::Increased => new > last,
            Predicate::Decreased => new < last,
            Predicate::Unchanged => new == last,
            Predicate::Changed => new != last,
        }
    }

    pub fn eval(&self, last: u32, new: u32) -> (r: bool)
        ensures
            r == self.holds(last, new),
    {
        match self {
            Predicate::Increased => new > last,
            Predicate::Decreased => new < last,
            Predicate::Unchanged => new == last,
            Predicate::Changed => new != last,
        }
    }
}

/// The word that a read of a candidate yields: its first four bytes, or
/// nothing when the read failed or gave fewer.
pub open spec fn decoded(data: Result<Vec<u8>, MemoryReadError>) -> Option<u32> {
    match data {
        Ok(v) => if v@.len() >= 4 {
            Some(le_word(v@, 0) as u32)
        } else {
            None
        },
        Err(_) => None,
    }
}

/// Whether a check with `pred` succeeds when the candidate last held `last`
/// and its read yields `word`, and the value it holds afterwards.
pub open spec fn check_outcome(last: u32, word: Option<u32>, pred: Predicate) -> (bool, u32) {
    match word {
        Some(new) => if pred.holds(last, new) {
            (true, new)
        } else {
            (false, last)
        },
        None => (false, last),
    }
}

/// Of `increased`, `decreased` and `unchanged` exactly one holds of any pair of
/// values, and `changed` holds exactly when `unchanged` does not.
pub proof fn lemma_predicates_partition(last: u32, new: u32)
    ensures
        !(Predicate::Increased.holds(last, new) && Predicate::Decreased.holds(last, new)),
        !(Predicate::Increased.holds(last, new) && Predicate::Unchanged.holds(last, new)),
        !(Predicate::Decreased.holds(last, new) && Predicate::Unchanged.holds(last, new)),
        Predicate::Increased.holds(last, new) || Predicate::Decreased.holds(last, new)
            || Predicate::Unchanged.holds(last, new),
        Predicate::Changed.holds(last, new) <==> !Predicate::Unchanged.holds(last, new),
{
}

/// A failed read leaves a check false and the last value as it was, and does
/// not spoil later checks: a later read that yields a word which `pred`
/// accepts makes the check succeed again.
pub proof fn lemma_failed_read_recovers(last: u32, failed: MemoryReadError, later: Result<Vec<u8>, MemoryReadError>, pred: Predicate)
    requires
        decoded(later) matches Some(new) && pred.holds(last, new),
    ensures
        check_outcome(last, decoded(Err(failed)), pred) == (false, last),
        check_outcome(check_outcome(last, decoded(Err(failed)), pred).1, decoded(later), pred).0,
{
}

/// After a check succeeds on a read, the same contents decode to the value the
/// check recorded: a peek that reads them again shows that value.
pub proof fn lemma_peek_after_check(last: u32, data: Result<Vec<u8>, MemoryReadError>, pred: Predicate)
    requires
        check_outcome(last, decoded(data), pred).0,
    ensures
        decoded(data) == Some(check_outcome(last, decoded(data), pred).1),
{
}

/// `out` may be what a check of `v` with `pred` hands back: nothing, or the
/// same candidate with a new value that `pred` accepts.
pub open spec fn checked_from(v: Value, pred: Predicate, out: Option<Value>) -> bool {
    out matches Some(w) ==> w.region == v.region && pred.holds(v.value, w.value)
}

/// The candidates that `outcomes` holds, in their order.
pub open spec fn kept(outcomes: Seq<Option<Value>>) -> Seq<Value>
    decreases outcomes.len(),
{
    if outcomes.len() == 0 {
        seq![]
    } else {
        let p = kept(outcomes.drop_last());
        match outcomes.last() {
            Some(v) => p.push(v),
            None => p,
        }
    }
}

/// Relies on rayon's `into_par_iter().map(..).collect()` over a `Vec`, which
/// calls the closure once per item and collects the results in the order of
/// the items.
#[verifier::external_body]
fn check_each(values: Vec<Value>, pred: Predicate) -> (r: Vec<Option<Value>>)
    ensures
        r@.len() == values@.len(),
        forall|i: int| 0 <= i < r@.len() ==> #[trigger] checked_from(values@[i], pred, r@[i]),
{
    values.into_par_iter().map(|v| v.checked(pred)).collect()
}

/// One round of refinement: checks every candidate with `pred`, in parallel,
/// and keeps those that pass, with their new values, in the order they came in.
pub fn refine(values: Vec<Value>, pred: Predicate) -> (r: Vec<Value>)
    ensures
        exists|outcomes: Seq<Option<Value>>| {
            &&& outcomes.len() == values@.len()
            &&& forall|i: int| 0 <= i < outcomes.len() ==> #[trigger] checked_from(values@[i], pred, outcomes[i])
            &&& r@ == kept(outcomes)
        },
{
    let ghost before = values@;
    let outcomes = check_each(values, pred);
    let ghost all = outcomes@;
    let mut out: Vec<Value> = Vec::new();
    for o in iter: outcomes.into_iter()
        invariant
            iter.seq() == all,
            out@ == kept(all.subrange(0, iter.index() as int)),
    {
        proof {
            assert(all.subrange(0, iter.index() + 1).drop_last() == all.subrange(0, iter.index() as int));
        }
        match o {
            Some(v) => out.push(v),
            None => {},
        }
    }
    assert(all.subrange(0, all.len() as int) == all);
    out
}

/// A tracked address and the value last seen there.
pub struct Value {
    pub region: Region,
    pub value: u32,
}

impl Value {
    /// The tracked span is one four-byte word.
    pub open spec fn wf(&self) -> bool {
        self.region.wf() && self.region.size == 4
    }

    pub fn new(base: Region, value: u32) -> (r: Self)
        requires
            base.wf(),
            base.size == 4,
        ensures
            r.region == base,
            r.value == value,
            r.wf(),
    {
        Value { region: base, value }
    }

    pub fn address(&self) -> (r: usize)
        ensures
            r == self.region.base.0,
    {
        self.region.base.0
    }

    /// The word that a read yielded, if any.
    pub fn decode(data: &Result<Vec<u8>, MemoryReadError>) -> (r: Option<u32>)
        ensures
            r == decoded(*data),
    {
        match data {
            Ok(v) => if v.len() >= 4 {
                Some(read_le_u32(v, 0))
            } else {
                None
            },
            Err(_) => None,
        }
    }

    /// Applies a check to the outcome of a read of this candidate: keeps the
    /// new word as the last value when `pred` accepts it.
    pub fn apply_read(&mut self, data: &Result<Vec<u8>, MemoryReadError>, pred: Predicate) -> (r: bool)
        ensures
            final(self).region == old(self).region,
            (r, final(self).value) == check_outcome(old(self).value, decoded(*data), pred),
    {
        match Value::decode(data) {
            Some(new) => {
                if pred.eval(self.value, new) {
                    self.value = new;
                    true
                } else {
                    false
                }
            },
            None => false,
        }
    }

    /// Reads the candidate again and keeps the new word when `pred` accepts it.
    pub fn check(&mut self, pred: Predicate) -> (r: bool)
        ensures
            final(self).region == old(self).region,
            r ==> pred.holds(old(self).value, final(self).value),
            !r ==> final(self).value == old(self).value,
    {
        let data = self.region.get();
        self.apply_read(&data, pred)
    }

    /// Checks the candidate with `pred` and hands it back, updated, when it
    /// passes.
    pub fn checked(self, pred: Predicate) -> (r: Option<Value>)
        ensures
            checked_from(self, pred, r),
    {
        let mut v = self;
        if v.check(pred) {
            Some(v)
        } else {
            None
        }
    }

    /// Reads the candidate's current word without recording it.
    pub fn get(&self) -> (r: Option<u32>)
        ensures
            exists|data: Result<Vec<u8>, MemoryReadError>|
                (data matches Ok(v) ==> v@.len() == self.region.size) && r == #[trigger] decoded(data),
    {
        let data = self.region.get();
        Value::decode(&data)
    }
}

} // verus!
