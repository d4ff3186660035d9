use std::convert::TryFrom;

use bloodhound::{Address, MemoryReadError, Predicate, Process, Region, RegionInfo, Value};
use bloodhound::{MEM_COMMIT, MEM_MAPPED, MEM_PRIVATE, PAGE_GUARD};
use read_process_memory::{Pid, ProcessHandle};

const TARGET: Pid = 1;

fn target_handle() -> ProcessHandle {
    ProcessHandle::try_from(TARGET).unwrap()
}

fn words(ws: &[u32]) -> Vec<u8> {
    let mut out = Vec::new();
    for w in ws {
        out.extend_from_slice(&w.to_le_bytes());
    }
    out
}

fn bytes_of(v: u32) -> Result<Vec<u8>, MemoryReadError> {
    Ok(v.to_le_bytes().to_vec())
}

fn cell(addr: usize) -> Region {
    Region::new(Address::new(addr), target_handle(), 4)
}

#[test]
fn address_basics() {
    let mut a = Address::new(0x1000);
    assert_eq!(a.inner(), 0x1000);
    assert_eq!(Address::null().inner(), 0);
    a.add(0x20);
    assert_eq!(a.inner(), 0x1020);
}

#[test]
fn address_sub_subtracts() {
    let mut a = Address::new(0x1000);
    a.sub(0x10);
    assert_eq!(a.inner(), 0xff0);
    a.add(0x10);
    a.sub(0x1000);
    assert_eq!(a, Address::null());
}

#[test]
fn scan_finds_matching_words() {
    let region = Region::new(Address::new(0x1000), target_handle(), 12);
    let found = region.scan(&words(&[5, 7, 5]), 5);
    assert_eq!(found.len(), 2);
    assert_eq!(found[0].address(), 0x1000);
    assert_eq!(found[1].address(), 0x1008);
    assert_eq!(found[0].value, 5);
    assert_eq!(found[1].value, 5);
    assert_eq!(found[0].region.size, 4);
}

#[test]
fn scan_ignores_trailing_bytes() {
    let mut data = words(&[9, 1]);
    data.extend_from_slice(&[9, 0, 0]);
    let region = Region::new(Address::new(0x2000), target_handle(), 11);
    let found = region.scan(&data, 9);
    assert_eq!(found.len(), 1);
    assert_eq!(found[0].address(), 0x2000);
}

#[test]
fn scan_of_nothing_matching_is_empty() {
    let region = Region::new(Address::new(0x3000), target_handle(), 8);
    assert!(region.scan(&words(&[1, 2]), 3).is_empty());
}

#[test]
fn scan_decodes_little_endian() {
    let region = Region::new(Address::new(0x4000), target_handle(), 8);
    let data = vec![0x00, 0x00, 0x00, 0x00, 0x78, 0x56, 0x34, 0x12];
    let found = region.scan(&data, 0x1234_5678);
    assert_eq!(found.len(), 1);
    assert_eq!(found[0].address(), 0x4004);
}

#[test]
fn decode_reads_first_word() {
    assert_eq!(Value::decode(&Ok(vec![0x78, 0x56, 0x34, 0x12, 0xff])), Some(0x1234_5678));
    assert_eq!(Value::decode(&Ok(vec![1, 2, 3])), None);
    assert_eq!(Value::decode(&Err(MemoryReadError(Some(5)))), None);
}

#[test]
fn inclusion_policy() {
    assert!(bloodhound::is_included(MEM_COMMIT, 0x04, MEM_PRIVATE));
    assert!(bloodhound::is_included(MEM_COMMIT, 0x02, MEM_MAPPED));
    assert!(!bloodhound::is_included(MEM_COMMIT, 0x04 | PAGE_GUARD, MEM_PRIVATE));
    assert!(!bloodhound::is_included(MEM_COMMIT, 0x04 | PAGE_GUARD, MEM_MAPPED));
    assert!(!bloodhound::is_included(0x2000, 0x04, MEM_PRIVATE));
    assert!(!bloodhound::is_included(0x2000, 0x04, MEM_MAPPED));
    assert!(!bloodhound::is_included(MEM_COMMIT, 0x04, 0x1000000));
}

#[test]
fn predicates_partition() {
    for (last, new) in [(1u32, 2u32), (2, 1), (3, 3), (0, u32::MAX)] {
        let inc = Predicate::Increased.eval(last, new);
        let dec = Predicate::Decreased.eval(last, new);
        let same = Predicate::Unchanged.eval(last, new);
        let changed = Predicate::Changed.eval(last, new);
        assert_eq!((inc as u32) + (dec as u32) + (same as u32), 1);
        assert_eq!(changed, !same);
    }
    assert!(Predicate::Increased.eval(1, 2));
    assert!(Predicate::Decreased.eval(2, 1));
    assert!(Predicate::Unchanged.eval(3, 3));
    assert!(Predicate::Changed.eval(3, 4));
}

#[test]
fn failed_read_does_not_poison() {
    let mut v = Value::new(cell(0x1000), 10);
    assert!(!v.apply_read(&Err(MemoryReadError(None)), Predicate::Increased));
    assert_eq!(v.value, 10);
    assert!(!v.apply_read(&Ok(vec![1, 2]), Predicate::Increased));
    assert_eq!(v.value, 10);
    assert!(v.apply_read(&bytes_of(11), Predicate::Increased));
    assert_eq!(v.value, 11);
}

#[test]
fn rejected_check_keeps_last_value() {
    let mut v = Value::new(cell(0x1000), 10);
    assert!(!v.apply_read(&bytes_of(9), Predicate::Increased));
    assert_eq!(v.value, 10);
    assert!(v.apply_read(&bytes_of(9), Predicate::Decreased));
    assert_eq!(v.value, 9);
}

#[test]
fn peek_after_check_shows_recorded_value() {
    let mut v = Value::new(cell(0x1000), 10);
    let data = bytes_of(42);
    assert!(v.apply_read(&data, Predicate::Changed));
    assert_eq!(Value::decode(&data), Some(v.value));
}

#[test]
fn simulated_round_trip() {
    let region = Region::new(Address::new(0x5000), target_handle(), 8);
    let found = region.scan(&words(&[7, 100]), 100);
    assert_eq!(found.len(), 1);
    assert_eq!(found[0].address(), 0x5004);
    assert_eq!(found[0].value, 100);
    let mut kept = Value::new(cell(0x5004), found[0].value);
    let mut copy = Value::new(cell(0x5004), found[0].value);
    assert!(kept.apply_read(&bytes_of(101), Predicate::Increased));
    assert_eq!(kept.value, 101);
    assert!(copy.apply_read(&bytes_of(101), Predicate::Increased));
    assert!(!kept.apply_read(&bytes_of(101), Predicate::Increased));
    assert!(copy.apply_read(&bytes_of(101), Predicate::Unchanged));
    assert_eq!(copy.value, 101);
}

#[test]
fn walk_advances_by_reported_size() {
    let mut p = Process::new(TARGET).unwrap();
    let c = p.begin_walk();
    assert_eq!(c, 0);
    let info = RegionInfo { base: 0, size: 0x1000, state: 0x10000, protect: 0x01, kind: 0 };
    assert_eq!(p.visit(c, Some(info)), Some(0x1000));
    assert!(p.regions.is_empty());
    let info = RegionInfo { base: 0x1000, size: 0x3000, state: MEM_COMMIT, protect: 0x04, kind: MEM_PRIVATE };
    assert_eq!(p.visit(0x1000, Some(info)), Some(0x4000));
    assert_eq!(p.regions.len(), 1);
    assert_eq!(p.regions[0].base.inner(), 0x1000);
    assert_eq!(p.regions[0].size, 0x3000);
    let guard = RegionInfo { base: 0x4000, size: 0x1000, state: MEM_COMMIT, protect: 0x04 | PAGE_GUARD, kind: MEM_PRIVATE };
    assert_eq!(p.visit(0x4000, Some(guard)), Some(0x5000));
    assert_eq!(p.regions.len(), 1);
    assert_eq!(p.visit(0x5000, None), None);
}

#[test]
fn walk_stops_on_zero_size() {
    let mut p = Process::new(TARGET).unwrap();
    let c = p.begin_walk();
    let info = RegionInfo { base: 0, size: 0, state: MEM_COMMIT, protect: 0x04, kind: MEM_MAPPED };
    assert_eq!(p.visit(c, Some(info)), None);
    assert!(p.regions.is_empty());
}

#[test]
fn walk_stops_at_end_of_address_space() {
    let mut p = Process::new(TARGET).unwrap();
    let top = usize::MAX - 0xfff;
    let info = RegionInfo { base: top, size: 0x1000, state: MEM_COMMIT, protect: 0x04, kind: MEM_PRIVATE };
    assert_eq!(p.visit(top, Some(info)), None);
    assert_eq!(p.regions.len(), 1);
}

#[test]
fn begin_walk_forgets_old_regions() {
    let mut p = Process::new(TARGET).unwrap();
    let info = RegionInfo { base: 0x1000, size: 0x1000, state: MEM_COMMIT, protect: 0x04, kind: MEM_PRIVATE };
    p.visit(0x1000, Some(info));
    assert_eq!(p.regions.len(), 1);
    p.begin_walk();
    assert!(p.regions.is_empty());
}

#[test]
fn unreadable_region_yields_nothing() {
    let region = Region::new(Address::new(0x10), target_handle(), 16);
    assert!(region.get().is_err());
    assert!(region.search(0).is_empty());
}

#[test]
fn search_without_regions_is_empty() {
    let mut p = Process::new(TARGET).unwrap();
    p.begin_walk();
    assert!(p.search(0).is_empty());
}

#[test]
fn refine_drops_unreadable_candidates() {
    let values = vec![Value::new(cell(0x10), 1), Value::new(cell(0x20), 2)];
    let left = bloodhound::refine(values, Predicate::Unchanged);
    assert!(left.is_empty());
}

#[test]
fn check_on_unreadable_candidate_fails_and_keeps_value() {
    let mut v = Value::new(cell(0x10), 7);
    assert!(!v.check(Predicate::Changed));
    assert_eq!(v.value, 7);
    assert_eq!(v.get(), None);
    assert!(Value::new(cell(0x10), 7).checked(Predicate::Unchanged).is_none());
}

#[test]
fn found_on_failed_read_is_empty() {
    let region = Region::new(Address::new(0x1000), target_handle(), 8);
    assert!(region.found(&Err(MemoryReadError(Some(14))), 5).is_empty());
}

#[test]
fn found_on_read_scans_it() {
    let region = Region::new(Address::new(0x1000), target_handle(), 12);
    let found = region.found(&Ok(words(&[100, 3, 100])), 100);
    assert_eq!(found.len(), 2);
    assert_eq!(found[0].address(), 0x1000);
    assert_eq!(found[1].address(), 0x1008);
    assert_eq!(found[1].value, 100);
}
