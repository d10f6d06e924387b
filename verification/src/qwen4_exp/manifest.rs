//! On-disk packed tensor layouts, independent of runtime sequence state.

use crate::text::same;
use vstd::prelude::*;
use vstd::string::*;

verus! {

/// Where a dense tensor lives inside `dense.bin`.
#[derive(Debug)]
pub struct DenseEntry {
    pub name: String,
    pub dtype: String,
    pub shape: Vec<usize>,
    pub offset: u64,
    pub nbytes: u64,
}

/// Expert record layout inside `experts.bin`. One record per (layer, expert): three packed
/// 4-bit weight matrices followed by their scales and biases, padded to a page multiple so
/// each record can be its own device buffer.
#[derive(Debug)]
pub struct ExpertLayout {
    pub layers: usize,
    pub experts: usize,
    pub inter: usize,
    pub hidden: usize,
    pub group: usize,
    pub record_bytes: u64,
    pub record_stride: u64,
    /// Tensor prefixes in record order (main layers, then draft layers).
    pub layer_prefixes: Vec<String>,
    pub gate_w: u64,
    pub up_w: u64,
    pub down_w: u64,
    pub gate_s: u64,
    pub gate_b: u64,
    pub up_s: u64,
    pub up_b: u64,
    pub down_s: u64,
    pub down_b: u64,
}

/// N-gram table layout inside `ngram.bin`: one `row_bytes` record per hashed id holding the
/// packed 4-bit row, then its scales, then its biases.
#[derive(Debug)]
pub struct NgramLayout {
    pub rows: u64,
    pub row_bytes: u64,
    pub dim: usize,
    pub group: usize,
    pub weight_bytes: u64,
    pub scale_bytes: u64,
    pub head_offsets: Vec<u64>,
    pub head_vocab_sizes: Vec<u64>,
    pub layer_multipliers: Vec<i64>,
}

#[derive(Debug)]
pub struct Manifest {
    pub version: u32,
    pub source_dir: String,
    pub dense: Vec<DenseEntry>,
    pub experts: ExpertLayout,
    pub ngram: NgramLayout,
}

/// The page to which records are padded.
pub const PAGE: u64 = 16384;

/// The packed layout that this engine reads.
pub const LAYOUT_VERSION: u32 = 1;

/// A packed layout of another version.
#[derive(Debug, Clone, Copy, PartialEq, Eq, Structural)]
pub struct UnsupportedLayout {
    pub version: u32,
}

impl UnsupportedLayout {
    pub fn message(&self) -> (r: String)
        ensures
            r@ == "unsupported packed layout version "@ + crate::text::decimal_of(self.version as nat),
    {
        let mut text: String = "unsupported packed layout version ".to_owned();
        text.append(crate::text::decimal(self.version as u64).as_str());
        text
    }
}

/// A tensor that the manifest does not list.
#[derive(Debug, Clone, Copy, PartialEq, Eq, Structural)]
pub struct MissingTensor {}

/// The first tensor of the name.
pub open spec fn first_named(entries: Seq<DenseEntry>, name: Seq<char>, i: int) -> bool {
    &&& 0 <= i < entries.len()
    &&& entries[i].name@ == name
    &&& forall|k: int| 0 <= k < i ==> (#[trigger] entries[k]).name@ != name
}

impl Manifest {
    /// What a parsed manifest has to satisfy.
    pub fn check(&self) -> (r: Result<(), UnsupportedLayout>)
        ensures
            r == if self.version == LAYOUT_VERSION {
                Ok(())
            } else {
                Err::<(), UnsupportedLayout>(UnsupportedLayout { version: self.version })
            },
    {
        if self.version == LAYOUT_VERSION {
            Ok(())
        } else {
            Err(UnsupportedLayout { version: self.version })
        }
    }

    /// The tensor of a name: the first entry that has it.
    pub fn dense(&self, name: &str) -> (r: Result<&DenseEntry, MissingTensor>)
        ensures
            match r {
                Ok(entry) => exists|i: int| #[trigger] first_named(self.dense@, name@, i) && *entry == self.dense@[i],
                Err(_) => forall|i: int| 0 <= i < self.dense@.len() ==> (#[trigger] self.dense@[i]).name@ != name@,
            },
    {
        let mut i: usize = 0;
        while i < self.dense.len()
            invariant
                i <= self.dense.len(),
                forall|k: int| 0 <= k < i ==> (#[trigger] self.dense@[k]).name@ != name@,
            decreases self.dense.len() - i,
        {
            if same(self.dense[i].name.as_str(), name) {
                assert(first_named(self.dense@, name@, i as int));
                return Ok(&self.dense[i]);
            }
            i = i + 1;
        }
        Err(MissingTensor {  })
    }
}

/// Only the first version of the layout is read.
pub proof fn law_layout_version(m: Manifest, r: Result<(), UnsupportedLayout>)
    requires
        call_ensures(Manifest::check, (&m,), r),
    ensures
        r is Ok <==> m.version == 1,
        r matches Err(e) ==> e.version == m.version,
{
}

} // verus!
