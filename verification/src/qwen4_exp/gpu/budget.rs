//! Expert-pool sizing after fixed buffers and host reservations.

use crate::options::PoolBudget;
use crate::units::BYTES_PER_GB;
use vstd::prelude::*;
use vstd::string::*;

verus! {

/// What the pool has to share the device's memory with, in bytes.
#[derive(Debug, Clone, Copy)]
pub struct PoolMemory {
    pub device: u64,
    pub fixed: u64,
    pub host: u64,
    pub allocation_limit: Option<u64>,
    pub prefill: u64,
}

/// Why no pool can be had.
#[derive(Debug, Clone, Copy, PartialEq, Eq, Structural)]
pub enum PoolSizeError {
    Unrepresentable,
    ExceedsBudget,
    NoCapacity,
}

impl PoolSizeError {
    pub open spec fn text(self) -> Seq<char> {
        match self {
            PoolSizeError::Unrepresentable => "expert pool size is not representable in bytes"@,
            PoolSizeError::ExceedsBudget =>
                "explicit expert pool exceeds server memory budget after fixed buffers and prefill scratch"@,
            PoolSizeError::NoCapacity => "fixed buffers and reservations leave no expert pool capacity"@,
        }
    }

    pub fn message(&self) -> (r: &'static str)
        ensures
            r@ == self.text(),
    {
        match self {
            PoolSizeError::Unrepresentable => "expert pool size is not representable in bytes",
            PoolSizeError::ExceedsBudget =>
                "explicit expert pool exceeds server memory budget after fixed buffers and prefill scratch",
            PoolSizeError::NoCapacity => "fixed buffers and reservations leave no expert pool capacity",
        }
    }
}

/// A difference, and nothing below.
pub open spec fn less(a: int, b: int) -> int {
    if a > b {
        a - b
    } else {
        0
    }
}

/// The smaller of two.
pub open spec fn smaller(a: int, b: int) -> int {
    if a < b {
        a
    } else {
        b
    }
}

/// The larger of two.
pub open spec fn larger(a: int, b: int) -> int {
    if a > b {
        a
    } else {
        b
    }
}

impl PoolMemory {
    /// What the limit leaves beside fixed buffers and prefill scratch.
    pub open spec fn available(self) -> int {
        let limit = match self.allocation_limit {
            Some(limit) => limit as int,
            None => u64::MAX as int,
        };
        less(less(limit, self.fixed as int), self.prefill as int)
    }

    /// What is kept free of the device's memory.
    pub open spec fn headroom(self, adaptive: bool) -> int {
        larger(
            self.prefill as int,
            if adaptive {
                6 * BYTES_PER_GB as int
            } else {
                BYTES_PER_GB as int / 2
            },
        )
    }

    /// What the device's memory and the limit leave for a pool.
    pub open spec fn room(self, adaptive: bool) -> int {
        smaller(
            less(less(less(self.device as int, self.host as int), self.fixed as int), self.headroom(adaptive)),
            self.available(),
        )
    }

    /// The pool's size, given what an explicit size comes to in bytes; nothing where it is
    /// no size.
    pub fn bytes(&self, request: PoolBudget, asked: Option<u64>) -> (r: Result<u64, PoolSizeError>)
        ensures
            match request {
                PoolBudget::Gb(_) => match asked {
                    None => r == Err::<u64, PoolSizeError>(PoolSizeError::Unrepresentable),
                    Some(n) => if n <= self.available() {
                        r == Ok::<u64, PoolSizeError>(n)
                    } else {
                        r == Err::<u64, PoolSizeError>(PoolSizeError::ExceedsBudget)
                    },
                },
                _ => if self.room(request is Adaptive) > 0 {
                    r matches Ok(n) && n == self.room(request is Adaptive)
                } else {
                    r == Err::<u64, PoolSizeError>(PoolSizeError::NoCapacity)
                },
            },
    {
        let limit: u64 = match self.allocation_limit {
            Some(limit) => limit,
            None => u64::MAX,
        };
        let available: u64 = limit.saturating_sub(self.fixed).saturating_sub(self.prefill);
        let margin: u64 = match request {
            PoolBudget::Gb(_) => {
                return match asked {
                    None => Err(PoolSizeError::Unrepresentable),
                    Some(n) => if n <= available {
                        Ok(n)
                    } else {
                        Err(PoolSizeError::ExceedsBudget)
                    },
                };
            },
            // Adaptive leaves a margin for the rest of the system.
            PoolBudget::Adaptive => 6 * BYTES_PER_GB,
            PoolBudget::Max => BYTES_PER_GB / 2,
        };
        let headroom: u64 = if self.prefill > margin {
            self.prefill
        } else {
            margin
        };
        let free: u64 = self.device.saturating_sub(self.host).saturating_sub(self.fixed).saturating_sub(headroom);
        let bytes: u64 = if free < available {
            free
        } else {
            available
        };
        if bytes > 0 {
            Ok(bytes)
        } else {
            Err(PoolSizeError::NoCapacity)
        }
    }
}

/// A pool that fits what is available stays under the limit together with fixed buffers and
/// prefill scratch.
pub proof fn law_pool_within_limit(memory: PoolMemory, limit: u64, pool: u64)
    requires
        memory.allocation_limit == Some(limit),
        0 < pool <= memory.available(),
    ensures
        pool + memory.fixed + memory.prefill <= limit,
{
}

/// A pool that takes all there is room for leaves the device its host reservation, the fixed
/// buffers and the headroom, and no adaptive pool is larger than the largest.
pub proof fn law_pool_leaves_headroom(memory: PoolMemory, adaptive: bool)
    requires
        memory.room(adaptive) > 0,
    ensures
        memory.room(adaptive) + memory.host + memory.fixed + memory.headroom(adaptive) <= memory.device,
        memory.room(true) <= memory.room(false),
{
}

/// A pool of a given size is granted as it is, where it fits the limit behind fixed buffers and
/// prefill scratch. Any other pool takes all that is left of the device behind the host's share, the
/// fixed buffers and a headroom of six gigabytes, or of half of one for the largest, within the same
/// limit.
pub proof fn law_pool_bytes(memory: PoolMemory, request: PoolBudget, asked: Option<u64>, r: Result<u64, PoolSizeError>)
    requires
        call_ensures(PoolMemory::bytes, (&memory, request, asked), r),
    ensures
        ({
            let limit = match memory.allocation_limit {
                Some(limit) => limit as int,
                None => u64::MAX as int,
            };
            let reserve = if request is Adaptive {
                6_000_000_000int
            } else {
                500_000_000int
            };
            let headroom = if memory.prefill > reserve {
                memory.prefill as int
            } else {
                reserve
            };
            &&& request is Gb && asked is None ==> r is Err && r->Err_0 is Unrepresentable
            &&& request is Gb && asked is Some && asked->0 > 0 ==> (r is Ok <==> memory.fixed + memory.prefill + asked->0
                <= limit)
            &&& request is Gb && r is Ok ==> Some(r->Ok_0) == asked
            &&& request is Gb && asked is Some && r is Err ==> r->Err_0 is ExceedsBudget
            &&& !(request is Gb) && r is Ok ==> {
                let n = r->Ok_0;
                &&& n > 0
                &&& memory.fixed + memory.prefill + n <= limit
                &&& memory.host + memory.fixed + headroom + n <= memory.device
                &&& memory.fixed + memory.prefill + n == limit || memory.host + memory.fixed + headroom + n == memory.device
            }
            &&& !(request is Gb) && r is Err ==> r->Err_0 is NoCapacity && (memory.fixed + memory.prefill >= limit
                || memory.host + memory.fixed + headroom >= memory.device)
        }),
{
}

} // verus!
