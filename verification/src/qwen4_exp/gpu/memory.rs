//! Resource counters shared by telemetry and control.

use vstd::prelude::*;

verus! {

/// Capacities and observations, not a partition of process memory.
#[derive(Debug, Clone, Copy)]
pub struct MemoryStats {
    pub metal_allocated_bytes_observed: u64,
    /// Length of the shared weight buffer, counted once for all tensor views.
    pub mapped_weight_buffer_bytes: usize,
    pub kv_index_capacity_bytes: usize,
    pub context_capacity_tokens: usize,
    pub mtp_enabled: bool,
    /// Configured pool capacity; fewer slots may be in use.
    pub expert_pool_bytes: usize,
    pub device_working_set_bytes: usize,
    pub allocation_limit_bytes: Option<usize>,
    pub prefill_reserved_bytes: usize,
    pub expert_pool_slots: usize,
    pub resident_experts: usize,
}

impl MemoryStats {
    /// Nothing observed yet.
    pub open spec fn nothing() -> MemoryStats {
        MemoryStats {
            metal_allocated_bytes_observed: 0,
            mapped_weight_buffer_bytes: 0,
            kv_index_capacity_bytes: 0,
            context_capacity_tokens: 0,
            mtp_enabled: false,
            expert_pool_bytes: 0,
            device_working_set_bytes: 0,
            allocation_limit_bytes: None,
            prefill_reserved_bytes: 0,
            expert_pool_slots: 0,
            resident_experts: 0,
        }
    }
}

impl Default for MemoryStats {
    fn default() -> (r: MemoryStats)
        ensures
            r == MemoryStats::nothing(),
    {
        MemoryStats {
            metal_allocated_bytes_observed: 0,
            mapped_weight_buffer_bytes: 0,
            kv_index_capacity_bytes: 0,
            context_capacity_tokens: 0,
            mtp_enabled: false,
            expert_pool_bytes: 0,
            device_working_set_bytes: 0,
            allocation_limit_bytes: None,
            prefill_reserved_bytes: 0,
            expert_pool_slots: 0,
            resident_experts: 0,
        }
    }
}

/// The buffers that an attention layer keeps for the context, in bytes.
#[derive(Debug, Clone, Copy)]
pub struct ContextBuffers {
    pub keys: usize,
    pub values: usize,
    pub index_keys: usize,
    pub blocks: usize,
}

/// What a layer keeps for the context; a layer without attention keeps nothing.
pub open spec fn kept(layer: Option<ContextBuffers>) -> int {
    match layer {
        Some(b) => b.keys + b.values + b.index_keys + b.blocks,
        None => 0,
    }
}

/// What the first layers keep together.
pub open spec fn kept_by(layers: Seq<Option<ContextBuffers>>, n: int) -> int
    decreases n,
{
    if n <= 0 {
        0
    } else {
        kept_by(layers, n - 1) + kept(layers[n - 1])
    }
}

proof fn lemma_kept_grows(layers: Seq<Option<ContextBuffers>>, m: int, n: int)
    requires
        0 <= m <= n <= layers.len(),
    ensures
        0 <= kept_by(layers, m) <= kept_by(layers, n),
    decreases n,
{
    if m < n {
        lemma_kept_grows(layers, m, n - 1);
    } else if n > 0 {
        lemma_kept_grows(layers, n - 1, n - 1);
    }
}

/// The bytes that all layers keep for the context, the draft layer among them where there
/// is one.
pub fn kv_index_capacity_bytes(layers: &[Option<ContextBuffers>]) -> (r: usize)
    requires
        kept_by(layers@, layers@.len() as int) <= usize::MAX,
    ensures
        r == kept_by(layers@, layers@.len() as int),
{
    let mut total: usize = 0;
    let mut i: usize = 0;
    while i < layers.len()
        invariant
            i <= layers@.len(),
            kept_by(layers@, layers@.len() as int) <= usize::MAX,
            total == kept_by(layers@, i as int),
        decreases layers@.len() - i,
    {
        proof {
            lemma_kept_grows(layers@, i + 1, layers@.len() as int);
        }
        if let Some(b) = layers[i] {
            total = total + b.keys + b.values + b.index_keys + b.blocks;
        }
        i = i + 1;
    }
    total
}

/// What the layers keep of the context is the sum over the layers that keep any, of keys, values,
/// index keys and blocks.
pub proof fn law_context_bytes(
    layers: &[Option<ContextBuffers>],
    more: &[Option<ContextBuffers>],
    layer: Option<ContextBuffers>,
    a: usize,
    b: usize,
)
    requires
        call_ensures(kv_index_capacity_bytes, (layers,), a),
        call_ensures(kv_index_capacity_bytes, (more,), b),
        more@ == layers@.push(layer),
    ensures
        layer is None ==> b == a,
        layer matches Some(x) ==> b == a + x.keys + x.values + x.index_keys + x.blocks,
        layers@.len() == 0 ==> a == 0,
{
    lemma_kept_prefix(layers@, more@, layers@.len() as int);
}

proof fn lemma_kept_prefix(a: Seq<Option<ContextBuffers>>, b: Seq<Option<ContextBuffers>>, n: int)
    requires
        n <= a.len(),
        n <= b.len(),
        forall|i: int| 0 <= i < n ==> #[trigger] a[i] == b[i],
    ensures
        kept_by(a, n) == kept_by(b, n),
    decreases n,
{
    if n > 0 {
        lemma_kept_prefix(a, b, n - 1);
        assert(a[n - 1] == b[n - 1]);
    }
}

} // verus!
