//! Memory scanning engine: finds the words of another process's memory that
//! hold a value, and narrows that set round by round as the values change.

mod address;
mod maps;
mod process;
mod region;
mod remote;
mod value;
mod word;

pub use address::Address;
pub use maps::{
    describe, protection, query, region_at, Mapping, MEM_FREE, PAGE_NOACCESS, PAGE_READONLY, PAGE_READWRITE,
};
pub use process::{
    admitted, included, is_included, joined, lemma_walk_advances, lemma_walk_kept_admitted, next_cursor, walk_kept, walk_trace,
    Process,
    ProcessError, RegionInfo, MEM_COMMIT, MEM_MAPPED, MEM_PRIVATE, PAGE_GUARD,
};
pub use region::{hits, lemma_hits, lemma_scan_exact, Region};
pub use remote::MemoryReadError;
pub use value::{
    check_outcome, checked_from, decoded, kept, lemma_failed_read_recovers, lemma_peek_after_check,
    lemma_predicates_partition, refine, Predicate, Value,
};
pub use word::{le_word, word_at};
