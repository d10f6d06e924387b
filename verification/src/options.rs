//! The choices of a run and what makes them valid.

use crate::number::{Real32, Real64, ONE32};
use crate::text;
use crate::text::{parse_unsigned, same};
use vstd::prelude::*;
use vstd::string::*;

verus! {

/// How much memory the pool of experts may hold.
#[derive(Debug, Clone, Copy)]
pub enum PoolBudget {
    Adaptive,
    Max,
    /// Decimal gigabytes.
    Gb(Real64),
}

impl Default for PoolBudget {
    fn default() -> (r: PoolBudget)
        ensures
            r is Adaptive,
    {
        PoolBudget::Adaptive
    }
}

/// A finite number above zero.
pub open spec fn positive_real(x: Real64) -> bool {
    x.finite() && x.key() > 0
}

fn is_positive_real(x: &Real64) -> (r: bool)
    ensures
        r == positive_real(*x),
{
    x.is_finite() && x.order_key() > 0
}

/// The reason that a pool size is refused with.
pub fn pool_error() -> (r: &'static str)
    ensures
        r@ == "pool must be a positive number of decimal GB, adaptive, or max"@,
{
    "pool must be a positive number of decimal GB, adaptive, or max"
}

impl PoolBudget {
    /// What a text stands for, given the number that it reads as, if it reads as one.
    pub fn from_text(s: &str, number: Option<Real64>) -> (r: Option<PoolBudget>)
        ensures
            r == if s@ == "adaptive"@ {
                Some(PoolBudget::Adaptive)
            } else if s@ == "max"@ {
                Some(PoolBudget::Max)
            } else {
                match number {
                    Some(n) => if positive_real(n) {
                        Some(PoolBudget::Gb(n))
                    } else {
                        None
                    },
                    None => None,
                }
            },
    {
        if same(s, "adaptive") {
            Some(PoolBudget::Adaptive)
        } else if same(s, "max") {
            Some(PoolBudget::Max)
        } else {
            match number {
                Some(n) => PoolBudget::from_number(n),
                None => None,
            }
        }
    }

    /// What a number stands for.
    pub fn from_number(n: Real64) -> (r: Option<PoolBudget>)
        ensures
            r == if positive_real(n) {
                Some(PoolBudget::Gb(n))
            } else {
                None
            },
    {
        if is_positive_real(&n) {
            Some(PoolBudget::Gb(n))
        } else {
            None
        }
    }

    /// Equality as numbers compare.
    pub open spec fn same_as(self, other: PoolBudget) -> bool {
        match (self, other) {
            (PoolBudget::Adaptive, PoolBudget::Adaptive) => true,
            (PoolBudget::Max, PoolBudget::Max) => true,
            (PoolBudget::Gb(a), PoolBudget::Gb(b)) => a.same(b),
            _ => false,
        }
    }

    pub fn equals(&self, other: &PoolBudget) -> (r: bool)
        ensures
            r == self.same_as(*other),
    {
        match (self, other) {
            (PoolBudget::Adaptive, PoolBudget::Adaptive) => true,
            (PoolBudget::Max, PoolBudget::Max) => true,
            (PoolBudget::Gb(a), PoolBudget::Gb(b)) => a.equals(b),
            _ => false,
        }
    }
}

/// Reads a count of at least one.
pub fn positive(s: &str) -> (r: Result<usize, &'static str>)
    ensures
        match r {
            Ok(n) => n > 0 && text::unsigned_value(s@) == Some(n as nat),
            Err(e) => e@ == "must be a positive integer"@ && match text::unsigned_value(s@) {
                Some(n) => n == 0 || n > usize::MAX,
                None => true,
            },
        },
{
    match parse_unsigned(s) {
        Some(n) if n > 0 => Ok(n),
        _ => Err("must be a positive integer"),
    }
}

/// A weight between zero and one.
pub open spec fn weight(x: Real32) -> bool {
    x.finite() && 0 <= x.key() <= ONE32
}

fn is_weight(x: &Real32) -> (r: bool)
    ensures
        r == weight(*x),
{
    x.is_finite() && x.order_key() >= 0 && x.order_key() <= ONE32 as i64
}

/// Accepts the weight that a text reads as, if it reads as one.
pub fn cut(number: Option<Real32>) -> (r: Result<Real32, &'static str>)
    ensures
        match r {
            Ok(n) => number == Some(n) && weight(n),
            Err(e) => e@ == "weight must be finite and between 0 and 1"@ && match number {
                Some(n) => !weight(n),
                None => true,
            },
        },
{
    match number {
        Some(n) => if is_weight(&n) {
            Ok(n)
        } else {
            Err("weight must be finite and between 0 and 1")
        },
        None => Err("weight must be finite and between 0 and 1"),
    }
}

/// Measured user choices.
#[derive(Debug, Clone, Copy)]
pub struct Options {
    /// Expert precision: 4, 3 or 2 bits.
    pub experts: u32,
    /// Mid-step fetch precision; follows `experts`.
    pub miss_experts: Option<u32>,
    /// Skip late weak experts; nonzero makes output non-reproducible.
    pub cut_weak: Real32,
    /// Adaptive drafts, 0 to 3.
    pub drafts: u8,
    /// Wired expert pool.
    pub pool_gb: PoolBudget,
    /// Rebuild the selected low-bit store.
    pub repack: bool,
    /// Whether a missing store is built.
    pub build_missing_store: bool,
    /// Output token limit.
    pub max_tokens: usize,
    /// Context capacity.
    pub max_ctx: usize,
    /// Skip the chat template.
    pub raw: bool,
    /// Compare device rows with the exact reference.
    pub check: bool,
    /// Repeat using loaded weights.
    pub repeat: usize,
    /// Ignore the end-of-text token.
    pub no_eos: bool,
}

/// The choices of a run that names none.
pub open spec fn default_options() -> Options {
    Options {
        experts: 4,
        miss_experts: None,
        cut_weak: Real32 { bits: 0 },
        drafts: 2,
        pool_gb: PoolBudget::Adaptive,
        repack: false,
        build_missing_store: true,
        max_tokens: 64,
        max_ctx: 2048,
        raw: false,
        check: false,
        repeat: 1,
        no_eos: false,
    }
}

impl Default for Options {
    fn default() -> (r: Options)
        ensures
            r == default_options(),
    {
        Options {
            experts: 4,
            miss_experts: None,
            cut_weak: Real32 { bits: 0 },
            drafts: 2,
            pool_gb: PoolBudget::Adaptive,
            repack: false,
            build_missing_store: true,
            max_tokens: 64,
            max_ctx: 2048,
            raw: false,
            check: false,
            repeat: 1,
            no_eos: false,
        }
    }
}

/// Why choices are refused.
#[derive(Debug, Clone, Copy, PartialEq, Eq, Structural)]
pub enum OptionsError {
    Precision,
    Mixed,
    Repack,
    Drafts,
    CutWeight,
    Limits,
    Pool,
}

impl OptionsError {
    pub open spec fn text(self) -> Seq<char> {
        match self {
            OptionsError::Precision => "expert precision must be 4, 3 or 2"@,
            OptionsError::Mixed =>
                "mixed precision requires --experts 4; only one low-bit store is attached at a time"@,
            OptionsError::Repack => "--repack requires a 2- or 3-bit expert precision"@,
            OptionsError::Drafts => "--drafts must be 0..3"@,
            OptionsError::CutWeight => "invalid cut weight"@,
            OptionsError::Limits => "token limits and repeat must be positive"@,
            OptionsError::Pool => "invalid pool size"@,
        }
    }

    pub fn message(&self) -> (r: &'static str)
        ensures
            r@ == self.text(),
    {
        match self {
            OptionsError::Precision => "expert precision must be 4, 3 or 2",
            OptionsError::Mixed =>
                "mixed precision requires --experts 4; only one low-bit store is attached at a time",
            OptionsError::Repack => "--repack requires a 2- or 3-bit expert precision",
            OptionsError::Drafts => "--drafts must be 0..3",
            OptionsError::CutWeight => "invalid cut weight",
            OptionsError::Limits => "token limits and repeat must be positive",
            OptionsError::Pool => "invalid pool size",
        }
    }
}

/// A precision that experts come in.
pub open spec fn precision(bits: u32) -> bool {
    2 <= bits <= 4
}

impl Options {
    /// The precision of experts fetched mid-step.
    pub open spec fn misses(self) -> u32 {
        match self.miss_experts {
            Some(bits) => bits,
            None => self.experts,
        }
    }

    pub fn miss_bits(&self) -> (r: u32)
        ensures
            r == self.misses(),
    {
        match self.miss_experts {
            Some(bits) => bits,
            None => self.experts,
        }
    }

    /// The first reason against the choices.
    pub open spec fn fault(self) -> Option<OptionsError> {
        if !precision(self.experts) || !precision(self.misses()) {
            Some(OptionsError::Precision)
        } else if self.experts != 4 && self.misses() != self.experts {
            Some(OptionsError::Mixed)
        } else if self.repack && self.misses() == 4 {
            Some(OptionsError::Repack)
        } else if self.drafts > 3 {
            Some(OptionsError::Drafts)
        } else if !weight(self.cut_weak) {
            Some(OptionsError::CutWeight)
        } else if self.max_tokens == 0 || self.max_ctx == 0 || self.repeat == 0 {
            Some(OptionsError::Limits)
        } else if self.pool_gb matches PoolBudget::Gb(n) && !positive_real(n) {
            Some(OptionsError::Pool)
        } else {
            None
        }
    }

    pub fn validate(&self) -> (r: Result<(), OptionsError>)
        ensures
            match r {
                Ok(()) => self.fault() is None,
                Err(e) => self.fault() == Some(e),
            },
    {
        let misses: u32 = self.miss_bits();
        if self.experts < 2 || self.experts > 4 || misses < 2 || misses > 4 {
            return Err(OptionsError::Precision);
        }
        if self.experts != 4 && misses != self.experts {
            return Err(OptionsError::Mixed);
        }
        if self.repack && misses >= 4 {
            return Err(OptionsError::Repack);
        }
        if self.drafts > 3 {
            return Err(OptionsError::Drafts);
        }
        if !is_weight(&self.cut_weak) {
            return Err(OptionsError::CutWeight);
        }
        if self.max_tokens == 0 || self.max_ctx == 0 || self.repeat == 0 {
            return Err(OptionsError::Limits);
        }
        if let PoolBudget::Gb(n) = &self.pool_gb {
            if !is_positive_real(n) {
                return Err(OptionsError::Pool);
            }
        }
        Ok(())
    }
}

/// The choices of a run that names none are valid.
pub proof fn law_default_options_valid()
    ensures
        default_options().fault() is None,
{
}

/// Valid choices use at most one low-bit store: experts are kept in four bits, or all are
/// read in the one precision that they are kept in.
pub proof fn law_one_low_bit_store(o: Options)
    requires
        o.fault() is None,
    ensures
        o.experts == 4 || o.misses() == o.experts,
        o.repack ==> o.misses() == 2 || o.misses() == 3,
{
}

/// Choices are accepted exactly where both precisions are 2, 3 or 4, a mixed precision keeps its
/// experts in four bits, a rebuilt store has two or three bits, at most three tokens are drafted,
/// the cut weight lies between zero and one, every count is at least one and a pool of a given
/// size has a finite size above zero. Each error names a choice that breaks its rule.
pub proof fn law_options_valid_exactly(o: Options, r: Result<(), OptionsError>)
    requires
        call_ensures(Options::validate, (&o,), r),
    ensures
        r is Ok <==> {
            let misses = match o.miss_experts {
                Some(bits) => bits,
                None => o.experts,
            };
            &&& o.experts == 2 || o.experts == 3 || o.experts == 4
            &&& misses == 2 || misses == 3 || misses == 4
            &&& o.experts == 4 || misses == o.experts
            &&& o.repack ==> misses != 4
            &&& o.drafts <= 3
            &&& o.cut_weak.finite() && 0 <= o.cut_weak.key() <= 0x3f80_0000
            &&& o.max_tokens >= 1 && o.max_ctx >= 1 && o.repeat >= 1
            &&& o.pool_gb matches PoolBudget::Gb(n) ==> n.finite() && n.key() > 0
        },
        r matches Err(e) ==> match e {
            OptionsError::Precision => !(2 <= o.experts <= 4) || !(2 <= o.misses() <= 4),
            OptionsError::Mixed => o.experts != 4 && (o.miss_experts matches Some(bits) && bits != o.experts),
            OptionsError::Repack => o.repack && o.misses() == 4,
            OptionsError::Drafts => o.drafts > 3,
            OptionsError::CutWeight => !o.cut_weak.finite() || o.cut_weak.key() < 0 || o.cut_weak.key() > 0x3f80_0000,
            OptionsError::Limits => o.max_tokens == 0 || o.max_ctx == 0 || o.repeat == 0,
            OptionsError::Pool => o.pool_gb matches PoolBudget::Gb(n) && !(n.finite() && n.key() > 0),
        },
{
}

/// Experts fetched mid-step have the precision that was named for them and, where none was, the
/// one that experts are kept in.
pub proof fn law_miss_bits(o: Options, r: u32)
    requires
        call_ensures(Options::miss_bits, (&o,), r),
    ensures
        o.miss_experts is None ==> r == o.experts,
        o.miss_experts is Some ==> Some(r) == o.miss_experts,
{
}

/// A pool's size is adaptive or the largest by its name, and else a finite number above zero.
pub proof fn law_pool_from_text(s: &str, number: Option<Real64>, r: Option<PoolBudget>)
    requires
        call_ensures(PoolBudget::from_text, (s, number), r),
    ensures
        s@ == "adaptive"@ ==> r == Some(PoolBudget::Adaptive),
        s@ == "max"@ ==> r == Some(PoolBudget::Max),
        s@ != "adaptive"@ && s@ != "max"@ ==> (r matches Some(pool) ==> pool is Gb && number == Some(pool->Gb_0)
            && pool->Gb_0.finite() && pool->Gb_0.key() > 0),
        s@ != "adaptive"@ && s@ != "max"@ && r is None ==> (number matches Some(n) ==> !n.finite() || n.key() <= 0),
{
    reveal_strlit("adaptive");
    reveal_strlit("max");
    assert("adaptive"@.len() != "max"@.len());
}

/// A weight is accepted exactly where it is finite and lies between zero and one, and is not
/// changed.
pub proof fn law_cut_weight(number: Option<Real32>, r: Result<Real32, &'static str>)
    requires
        call_ensures(cut, (number,), r),
    ensures
        r is Ok <==> (number matches Some(n) && n.finite() && 0 <= n.key() <= 0x3f80_0000),
        r matches Ok(n) ==> number == Some(n),
{
}

/// A run that names no choices keeps experts in four bits, drafts two tokens, writes up to 64
/// tokens in a context of 2048, and runs once.
pub proof fn law_default_options(r: Options)
    requires
        call_ensures(<Options as Default>::default, (), r),
    ensures
        r.experts == 4 && r.miss_experts is None && r.drafts == 2 && r.pool_gb is Adaptive,
        r.cut_weak.bits == 0,
        !r.repack && r.build_missing_store && !r.raw && !r.check && !r.no_eos,
        r.max_tokens == 64 && r.max_ctx == 2048 && r.repeat == 1,
{
}

} // verus!
