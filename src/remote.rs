use vstd::prelude::*;
use read_process_memory::{copy_address, Pid, ProcessHandle};
use std::convert::TryFrom;

verus! {

/// The connection to the target process, as the memory-reading crate keeps it.
#[verifier::external_type_specification]
#[verifier::external_body]
pub struct ExProcessHandle(ProcessHandle);

/// Relies on the derived `Clone` of `read_process_memory::ProcessHandle`,
/// which copies what the handle holds (a pid, a task port, or a shared
/// reference to one open handle, by platform).
pub assume_specification[ <ProcessHandle as Clone>::clone ](h: &ProcessHandle) -> (r: ProcessHandle)
    ensures
        r == *h,
;

/// A failed read of the target's memory, with the operating system's error code
/// when it gave one.
#[derive(Clone, Copy, PartialEq, Eq, Debug, Structural)]
pub struct MemoryReadError(pub Option<i32>);

/// Relies on `read_process_memory::copy_address`: on success it hands back a
/// buffer of exactly `length` bytes (zero-filled before the read, so a short
/// read leaves zeros at its end).
#[verifier::external_body]
pub(crate) fn read_remote(handle: &ProcessHandle, addr: usize, length: usize) -> (r: Result<Vec<u8>, MemoryReadError>)
    ensures
        r matches Ok(v) ==> v@.len() == length,
{
    copy_address(addr, length, handle).map_err(|e| MemoryReadError(e.raw_os_error()))
}

/// Relies on `TryFrom<Pid>` for `read_process_memory::ProcessHandle`, which
/// opens the process; the error carries the operating system's code.
#[verifier::external_body]
pub(crate) fn open_handle(pid: Pid) -> (r: Result<ProcessHandle, Option<i32>>)
{
    ProcessHandle::try_from(pid).map_err(|e| e.raw_os_error())
}

} // verus!
