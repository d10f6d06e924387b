//! What the device's memory asks of a buffer: whole pages, and a place under the limit.

use crate::runner;
use crate::runner::div_ceil;
use vstd::prelude::*;
use vstd::string::*;

verus! {

/// The page to which the device may round each buffer.
pub const PAGE_SIZE: usize = 16384;

/// Why a buffer cannot be had.
#[derive(Debug, Clone, Copy, PartialEq, Eq, Structural)]
pub enum BufferError {
    MappingAddress,
    RegionAddress,
    RegionLength,
    RegionNull,
    MappingNull,
    Limit,
}

impl BufferError {
    pub open spec fn text(self) -> Seq<char> {
        match self {
            BufferError::MappingAddress => "mmap base is not page-aligned"@,
            BufferError::RegionAddress => "region not page-aligned"@,
            BufferError::RegionLength => "region length not page-aligned"@,
            BufferError::RegionNull => "null region"@,
            BufferError::MappingNull => "null mmap pointer"@,
            BufferError::Limit =>
                "allocation would exceed the server memory budget; reduce pool or prefill chunk size"@,
        }
    }

    pub fn message(&self) -> (r: &'static str)
        ensures
            r@ == self.text(),
    {
        match self {
            BufferError::MappingAddress => "mmap base is not page-aligned",
            BufferError::RegionAddress => "region not page-aligned",
            BufferError::RegionLength => "region length not page-aligned",
            BufferError::RegionNull => "null region",
            BufferError::MappingNull => "null mmap pointer",
            BufferError::Limit =>
                "allocation would exceed the server memory budget; reduce pool or prefill chunk size",
        }
    }
}

/// Whether so many more bytes stay under the limit, where there is one.
pub open spec fn allowed(allocated: usize, len: int, limit: Option<usize>) -> bool {
    match limit {
        Some(limit) => allocated + len <= limit,
        None => true,
    }
}

/// Accepts an allocation beside what is allocated.
pub fn check_allocation(allocated: usize, len: usize, limit: Option<usize>) -> (r: Result<(), BufferError>)
    ensures
        match r {
            Ok(()) => allowed(allocated, len as int, limit),
            Err(e) => e is Limit && !allowed(allocated, len as int, limit),
        },
{
    match limit {
        Some(limit) => match allocated.checked_add(len) {
            Some(n) => if n <= limit {
                Ok(())
            } else {
                Err(BufferError::Limit)
            },
            None => Err(BufferError::Limit),
        },
        None => Ok(()),
    }
}

/// A size rounded up to whole pages.
pub open spec fn paged(len: nat) -> nat {
    runner::ceil_div(len, PAGE_SIZE as nat) * PAGE_SIZE as nat
}

/// The size of the buffer over a mapping of so many bytes at an address.
pub fn mapping_buffer(address: usize, len: usize, allocated: usize, limit: Option<usize>) -> (r: Result<usize, BufferError>)
    requires
        paged(len as nat) <= usize::MAX,
    ensures
        match r {
            Ok(n) => address % PAGE_SIZE == 0 && address != 0 && n == paged(len as nat) && allowed(
                allocated,
                n as int,
                limit,
            ),
            Err(BufferError::MappingAddress) => address % PAGE_SIZE != 0,
            Err(BufferError::Limit) => address % PAGE_SIZE == 0 && !allowed(
                allocated,
                paged(len as nat) as int,
                limit,
            ),
            Err(e) => e is MappingNull && address == 0 && allowed(allocated, paged(len as nat) as int, limit),
        },
{
    if address % PAGE_SIZE != 0 {
        return Err(BufferError::MappingAddress);
    }
    let whole: usize = div_ceil(len, PAGE_SIZE) * PAGE_SIZE;
    match check_allocation(allocated, whole, limit) {
        Ok(()) => {},
        Err(e) => return Err(e),
    }
    if address == 0 {
        return Err(BufferError::MappingNull);
    }
    Ok(whole)
}

/// Accepts a buffer over a part of a mapping.
pub fn region_buffer(address: usize, len: usize, allocated: usize, limit: Option<usize>) -> (r: Result<(), BufferError>)
    ensures
        match r {
            Ok(()) => address % PAGE_SIZE == 0 && len % PAGE_SIZE == 0 && address != 0 && allowed(
                allocated,
                len as int,
                limit,
            ),
            Err(BufferError::RegionAddress) => address % PAGE_SIZE != 0,
            Err(BufferError::RegionLength) => address % PAGE_SIZE == 0 && len % PAGE_SIZE != 0,
            Err(BufferError::RegionNull) => address == 0 && len % PAGE_SIZE == 0,
            Err(e) => e is Limit && address % PAGE_SIZE == 0 && len % PAGE_SIZE == 0 && address != 0 && !allowed(
                allocated,
                len as int,
                limit,
            ),
        },
{
    if address % PAGE_SIZE != 0 {
        return Err(BufferError::RegionAddress);
    }
    if len % PAGE_SIZE != 0 {
        return Err(BufferError::RegionLength);
    }
    if address == 0 {
        return Err(BufferError::RegionNull);
    }
    check_allocation(allocated, len, limit)
}

/// Allocations that were accepted one behind the other stay under the limit together.
pub proof fn law_allocations_stay_under_limit(allocated: usize, len: usize, more: usize, limit: usize)
    requires
        allowed(allocated, len as int, Some(limit)),
        allocated + len <= usize::MAX,
        allowed((allocated + len) as usize, more as int, Some(limit)),
    ensures
        allocated + len + more <= limit,
{
}

/// Without a limit everything may be allocated; with one, what is allocated then stays within it.
pub proof fn law_allocation_checked(allocated: usize, len: usize, limit: Option<usize>, r: Result<(), BufferError>)
    requires
        call_ensures(check_allocation, (allocated, len, limit), r),
    ensures
        limit is None ==> r is Ok,
        limit matches Some(most) ==> (r is Ok <==> allocated + len <= most),
        r matches Err(e) ==> e is Limit,
{
}

/// A mapping becomes a buffer of whole pages, as few as hold it, where it starts at a page that is not
/// the first and fits the limit.
pub proof fn law_mapping_buffer(address: usize, len: usize, allocated: usize, limit: Option<usize>, r: Result<usize, BufferError>)
    requires
        call_ensures(mapping_buffer, (address, len, allocated, limit), r),
    ensures
        r matches Ok(n) ==> {
            &&& address != 0 && address % 16384 == 0
            &&& n % 16384 == 0 && len <= n < len + 16384
            &&& limit matches Some(most) ==> allocated + n <= most
        },
        r is Err && address != 0 && address % 16384 == 0 ==> r->Err_0 is Limit && (limit matches Some(most) && allocated + len
            + 16383 >= most),
{
}

/// A region becomes a buffer exactly where it is made of whole pages, is not at the first, and fits the
/// limit.
pub proof fn law_region_buffer(address: usize, len: usize, allocated: usize, limit: Option<usize>, r: Result<(), BufferError>)
    requires
        call_ensures(region_buffer, (address, len, allocated, limit), r),
    ensures
        r is Ok <==> {
            &&& address != 0 && address % 16384 == 0 && len % 16384 == 0
            &&& limit matches Some(most) ==> allocated + len <= most
        },
{
}

} // verus!
