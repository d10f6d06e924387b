//! Router and resident and fetched expert compute.

use crate::qwen4_exp::gpu::launch::{
    args6, args7, groups, threads, Arg, Buf, Command, MoeBParams, Part, Pipe, Prepared, RowBuffer, Stream,
};
use crate::qwen4_exp::gpu::model;
use crate::qwen4_exp::gpu::model::{Model, Moe, RecordLayout};
use crate::qwen4_exp::gpu::prefill::allocation;
use crate::qwen4_exp::gpu::prefill::allocation::ScratchBuffer;
use crate::runner;
use crate::runner::div_ceil;
use vstd::prelude::*;

verus! {

/// The router over `n` rows of `x`: logits of every expert, then the `k` best with their weights.
#[verifier::opaque]
pub open spec fn router_commands(m: Model, moe: Moe, n: int, x: Buf, logits: Buf, idx: Buf, w: Buf, k: usize) -> Seq<Command> {
    let c = m.cfg;
    seq![
        groups(
            Pipe::Bf16MatvecB,
            args6(
                Arg::Bind(Buf::Dense, moe.router),
                Arg::Bind(x, 0),
                Arg::Bind(logits, 0),
                Arg::Word(c.num_experts as u32),
                Arg::Word(c.hidden_size as u32),
                Arg::Word(n as u32),
            ),
            runner::ceil_div((n * c.num_experts) as nat, 4) as usize,
            128,
        ),
        groups(
            Pipe::TopkSoftmaxB,
            args6(
                Arg::Bind(logits, 0),
                Arg::Bind(idx, 0),
                Arg::Bind(w, 0),
                Arg::Word(c.num_experts as u32),
                Arg::Word(k as u32),
                Arg::Word(
                    if c.norm_topk_prob {
                        1
                    } else {
                        0
                    },
                ),
            ),
            n as usize,
            if c.num_experts < 32 {
                32
            } else {
                c.num_experts
            },
        ),
    ]
}

pub fn router_b(out: &mut Vec<Command>, m: &Model, moe: &Moe, nb: usize, x: Buf, logits: Buf, idx: Buf, w: Buf, k: usize)
    requires
        m.plans(nb as nat),
    ensures
        final(out)@ == old(out)@ + router_commands(*m, *moe, nb as int, x, logits, idx, w, k),
{
    reveal(router_commands);
    let ghost start = out@;
    let c = &m.cfg;
    proof {
        allocation::lemma_padded_rows(nb as nat);
        model::lemma_rows_fit(*m, nb as nat, nb as nat, ScratchBuffer::Router);
        model::lemma_single(nb as nat, 4, c.num_experts as nat, usize::MAX as nat);
    }
    out.push(
        groups(
            Pipe::Bf16MatvecB,
            args6(
                Arg::Bind(Buf::Dense, moe.router),
                Arg::Bind(x, 0),
                Arg::Bind(logits, 0),
                Arg::Word(c.num_experts as u32),
                Arg::Word(c.hidden_size as u32),
                Arg::Word(nb as u32),
            ),
            div_ceil(nb * c.num_experts, 4),
            128,
        ),
    );
    let renorm: u32 = if c.norm_topk_prob { 1 } else { 0 };
    out.push(
        groups(
            Pipe::TopkSoftmaxB,
            args6(
                Arg::Bind(logits, 0),
                Arg::Bind(idx, 0),
                Arg::Bind(w, 0),
                Arg::Word(c.num_experts as u32),
                Arg::Word(k as u32),
                Arg::Word(renorm),
            ),
            nb,
            if c.num_experts < 32 { 32 } else { c.num_experts },
        ),
    );
    assert(out@ =~= start + router_commands(*m, *moe, nb as int, x, logits, idx, w, k));
}

/// The experts that a step of `n` rows runs at most: its routed ones and the shared one.
pub open spec fn expert_slots(m: Model, n: int) -> int {
    m.cfg.num_experts_per_tok * n + 1
}

/// The expert buffers of a step of `n` rows are addressable.
pub open spec fn experts_fit(m: Model, n: int) -> bool {
    &&& expert_slots(m, n) <= u32::MAX
    &&& expert_slots(m, n) * (n * (2 * m.inter)) <= usize::MAX
    &&& expert_slots(m, n) * (2 * m.inter) <= usize::MAX
    &&& expert_slots(m, n) * m.cfg.hidden_size <= usize::MAX
    &&& n * m.cfg.hidden_size <= u32::MAX
    &&& m.inter <= u32::MAX
    &&& m.cfg.hidden_size <= u32::MAX
}

/// Where the parts of a low-bit record lie, or zero without one.
pub open spec fn low_word(low: Option<RecordLayout>, part: spec_fn(RecordLayout) -> usize) -> u32 {
    match low {
        Some(l) => part(l) as u32,
        None => 0,
    }
}

pub open spec fn expert_params(m: Model, moe: Moe, slot_row: int, n: int, part: u32) -> MoeBParams {
    let l = m.base_layout;
    MoeBParams {
        inter: m.inter as u32,
        hidden: m.cfg.hidden_size as u32,
        n_u: (m.cfg.num_experts_per_tok * n) as u32,
        gate_w: l.gate_w as u32,
        up_w: l.up_w as u32,
        down_w: l.down_w as u32,
        gate_s: l.gate_s as u32,
        gate_b: l.gate_b as u32,
        up_s: l.up_s as u32,
        up_b: l.up_b as u32,
        down_s: l.down_s as u32,
        down_b: l.down_b as u32,
        layer: slot_row as u32,
        shared: if m.skips.shared {
            0
        } else {
            1
        },
        nb: n as u32,
        sh_gate_w: moe.sg.w as u32,
        sh_gate_s: moe.sg.s as u32,
        sh_gate_b: moe.sg.b as u32,
        sh_up_w: moe.su.w as u32,
        sh_up_s: moe.su.s as u32,
        sh_up_b: moe.su.b as u32,
        sh_down_w: moe.sd.w as u32,
        sh_down_s: moe.sd.s as u32,
        sh_down_b: moe.sd.b as u32,
        sh_gate_vec: moe.shared_gate as u32,
        part,
        low_gate_w: low_word(m.low_layout, |s: RecordLayout| s.gate_w),
        low_up_w: low_word(m.low_layout, |s: RecordLayout| s.up_w),
        low_down_w: low_word(m.low_layout, |s: RecordLayout| s.down_w),
        low_gate_s: low_word(m.low_layout, |s: RecordLayout| s.gate_s),
        low_gate_b: low_word(m.low_layout, |s: RecordLayout| s.gate_b),
        low_up_s: low_word(m.low_layout, |s: RecordLayout| s.up_s),
        low_up_b: low_word(m.low_layout, |s: RecordLayout| s.up_b),
        low_down_s: low_word(m.low_layout, |s: RecordLayout| s.down_s),
        low_down_b: low_word(m.low_layout, |s: RecordLayout| s.down_b),
    }
}

/// A prepared batch's three parts.
pub open spec fn prepared(p: Prepared, part: Part) -> Arg {
    Arg::Bind(Buf::Row(RowBuffer::Prep(p, part)), 0)
}

/// One part of a block's experts over `n` rows: part 0 runs the shared expert and the
/// records resident when the slot table was published, part 1 the ones fetched meanwhile.
/// Without the experts the output is zeroed once.
#[verifier::opaque]
pub open spec fn experts_commands(m: Model, moe: Moe, slot_row: int, n: int, part: u32) -> Seq<Command> {
    let c = m.cfg;
    let mp = expert_params(m, moe, slot_row, n, part);
    let slots = expert_slots(m, n);
    let input = Prepared::Input(Stream::Block);
    let act = Prepared::Activations;
    if m.skips.experts {
        if part == 0 {
            seq![Command::Zero { buf: Buf::Row(RowBuffer::MoeOut), words: (n * c.hidden_size) as u32 }]
        } else {
            Seq::empty()
        }
    } else {
        seq![
            groups(
                Pipe::MoeGateUpB(n as usize),
                args7(
                    prepared(input, Part::Even),
                    prepared(input, Part::Odd),
                    prepared(input, Part::Sum),
                    Arg::Bind(Buf::Row(RowBuffer::GateE), 0),
                    Arg::Moe(mp),
                    Arg::Bind(Buf::SlotTable, 0),
                    Arg::Bind(Buf::Dense, 0),
                ),
                runner::ceil_div((slots * (2 * m.inter)) as nat, 4) as usize,
                128,
            ),
            threads(
                Pipe::MoeActB,
                args6(
                    Arg::Bind(Buf::Row(RowBuffer::GateE), 0),
                    prepared(act, Part::Even),
                    prepared(act, Part::Odd),
                    prepared(act, Part::Sum),
                    Arg::Moe(mp),
                    Arg::Bind(Buf::SlotTable, 0),
                ),
                (slots * (n * m.inter) / 2) as usize,
                256,
            ),
            groups(
                Pipe::MoeDownB(n as usize),
                args7(
                    prepared(act, Part::Even),
                    prepared(act, Part::Odd),
                    prepared(act, Part::Sum),
                    Arg::Bind(Buf::Row(RowBuffer::YE), 0),
                    Arg::Moe(mp),
                    Arg::Bind(Buf::SlotTable, 0),
                    Arg::Bind(Buf::Dense, 0),
                ),
                runner::ceil_div((slots * (c.hidden_size / 2)) as nat, 4) as usize,
                128,
            ),
            groups(
                Pipe::MoeCombineB,
                args7(
                    Arg::Bind(Buf::Row(RowBuffer::YE), 0),
                    Arg::Bind(Buf::WeightMap, 0),
                    Arg::Bind(Buf::Row(RowBuffer::MoeOut), 0),
                    Arg::Moe(mp),
                    Arg::Bind(Buf::Dense, 0),
                    Arg::Bind(Buf::Row(RowBuffer::Mixed(Stream::Block)), 0),
                    Arg::Bind(Buf::SlotTable, 0),
                ),
                (n * runner::ceil_div(c.hidden_size as nat, 256)) as usize,
                256,
            ),
        ]
    }
}

proof fn lemma_expert_products(m: Model, n: nat)
    requires
        m.plans(n),
        experts_fit(m, n as int),
    ensures
        m.cfg.num_experts_per_tok * n <= u32::MAX - 1,
        expert_slots(m, n as int) * (n * m.inter) <= usize::MAX,
        n * m.inter <= usize::MAX,
        expert_slots(m, n as int) * (m.cfg.hidden_size / 2) <= usize::MAX,
        n * runner::ceil_div(m.cfg.hidden_size as nat, 256) <= usize::MAX,
        0 <= expert_slots(m, n as int) * (n * m.inter),
        0 <= expert_slots(m, n as int) * (2 * m.inter),
        2 * m.inter <= usize::MAX,
        0 <= expert_slots(m, n as int) * (m.cfg.hidden_size / 2),
{
    let slots = expert_slots(m, n as int);
    let k = m.cfg.num_experts_per_tok as int;
    let (inter, h) = (m.inter as int, m.cfg.hidden_size as int);
    let r = n as int;
    assert(k * r >= 0) by (nonlinear_arith)
        requires
            k >= 0,
            r >= 0,
    ;
    assert(0 <= r * inter && r * inter <= slots * (r * inter) && slots * (r * inter) <= slots * (r * (2 * inter)))
        by (nonlinear_arith)
        requires
            slots >= 1,
            r >= 0,
            inter >= 0,
    ;
    assert(0 <= slots * (h / 2) <= slots * h && 2 * inter <= slots * (2 * inter)) by (nonlinear_arith)
        requires
            slots >= 1,
            0 <= h / 2 <= h,
            inter >= 0,
    ;
    let tiles = runner::ceil_div(h as nat, 256);
    assert(r * tiles <= r * h) by (nonlinear_arith)
        requires
            tiles <= h,
            r >= 0,
    ;
}

/// The routed experts of `nb` rows, as published in slot table row `slot_row` when the
/// device gets there, and the shared expert, summed per row.
pub fn experts_b(out: &mut Vec<Command>, m: &Model, moe: &Moe, slot_row: usize, nb: usize, part: u32)
    requires
        m.plans(nb as nat),
        experts_fit(*m, nb as int),
    ensures
        final(out)@ == old(out)@ + experts_commands(*m, *moe, slot_row as int, nb as int, part),
{
    reveal(experts_commands);
    let ghost start = out@;
    let c = &m.cfg;
    proof {
        lemma_expert_products(*m, nb as nat);
    }
    if m.skips.experts {
        if part == 0 {
            out.push(Command::Zero { buf: Buf::Row(RowBuffer::MoeOut), words: (nb * c.hidden_size) as u32 });
        }
        assert(out@ =~= start + experts_commands(*m, *moe, slot_row as int, nb as int, part));
        return;
    }
    let l: RecordLayout = m.base_layout;
    let n_max: u32 = (c.num_experts_per_tok * nb) as u32;
    let low: RecordLayout = match m.low_layout {
        Some(s) => s,
        None => RecordLayout {
            gate_w: 0,
            up_w: 0,
            down_w: 0,
            gate_s: 0,
            gate_b: 0,
            up_s: 0,
            up_b: 0,
            down_s: 0,
            down_b: 0,
            bits: 0,
            stride: 0,
        },
    };
    let mp = MoeBParams {
        inter: m.inter as u32,
        hidden: c.hidden_size as u32,
        n_u: n_max,
        gate_w: l.gate_w as u32,
        up_w: l.up_w as u32,
        down_w: l.down_w as u32,
        gate_s: l.gate_s as u32,
        gate_b: l.gate_b as u32,
        up_s: l.up_s as u32,
        up_b: l.up_b as u32,
        down_s: l.down_s as u32,
        down_b: l.down_b as u32,
        layer: slot_row as u32,
        shared: if m.skips.shared { 0 } else { 1 },
        nb: nb as u32,
        sh_gate_w: moe.sg.w as u32,
        sh_gate_s: moe.sg.s as u32,
        sh_gate_b: moe.sg.b as u32,
        sh_up_w: moe.su.w as u32,
        sh_up_s: moe.su.s as u32,
        sh_up_b: moe.su.b as u32,
        sh_down_w: moe.sd.w as u32,
        sh_down_s: moe.sd.s as u32,
        sh_down_b: moe.sd.b as u32,
        sh_gate_vec: moe.shared_gate as u32,
        part,
        low_gate_w: low.gate_w as u32,
        low_up_w: low.up_w as u32,
        low_down_w: low.down_w as u32,
        low_gate_s: low.gate_s as u32,
        low_gate_b: low.gate_b as u32,
        low_up_s: low.up_s as u32,
        low_up_b: low.up_b as u32,
        low_down_s: low.down_s as u32,
        low_down_b: low.down_b as u32,
    };
    assert(mp == expert_params(*m, *moe, slot_row as int, nb as int, part));
    let slots: usize = n_max as usize + 1;
    let input: Prepared = Prepared::Input(Stream::Block);
    let act: Prepared = Prepared::Activations;
    out.push(
        groups(
            Pipe::MoeGateUpB(nb),
            args7(
                Arg::Bind(Buf::Row(RowBuffer::Prep(input, Part::Even)), 0),
                Arg::Bind(Buf::Row(RowBuffer::Prep(input, Part::Odd)), 0),
                Arg::Bind(Buf::Row(RowBuffer::Prep(input, Part::Sum)), 0),
                Arg::Bind(Buf::Row(RowBuffer::GateE), 0),
                Arg::Moe(mp),
                Arg::Bind(Buf::SlotTable, 0),
                Arg::Bind(Buf::Dense, 0),
            ),
            div_ceil(slots * (2 * m.inter), 4),
            128,
        ),
    );
    out.push(
        threads(
            Pipe::MoeActB,
            args6(
                Arg::Bind(Buf::Row(RowBuffer::GateE), 0),
                Arg::Bind(Buf::Row(RowBuffer::Prep(act, Part::Even)), 0),
                Arg::Bind(Buf::Row(RowBuffer::Prep(act, Part::Odd)), 0),
                Arg::Bind(Buf::Row(RowBuffer::Prep(act, Part::Sum)), 0),
                Arg::Moe(mp),
                Arg::Bind(Buf::SlotTable, 0),
            ),
            slots * (nb * m.inter) / 2,
            256,
        ),
    );
    out.push(
        groups(
            Pipe::MoeDownB(nb),
            args7(
                Arg::Bind(Buf::Row(RowBuffer::Prep(act, Part::Even)), 0),
                Arg::Bind(Buf::Row(RowBuffer::Prep(act, Part::Odd)), 0),
                Arg::Bind(Buf::Row(RowBuffer::Prep(act, Part::Sum)), 0),
                Arg::Bind(Buf::Row(RowBuffer::YE), 0),
                Arg::Moe(mp),
                Arg::Bind(Buf::SlotTable, 0),
                Arg::Bind(Buf::Dense, 0),
            ),
            div_ceil(slots * (c.hidden_size / 2), 4),
            128,
        ),
    );
    out.push(
        groups(
            Pipe::MoeCombineB,
            args7(
                Arg::Bind(Buf::Row(RowBuffer::YE), 0),
                Arg::Bind(Buf::WeightMap, 0),
                Arg::Bind(Buf::Row(RowBuffer::MoeOut), 0),
                Arg::Moe(mp),
                Arg::Bind(Buf::Dense, 0),
                Arg::Bind(Buf::Row(RowBuffer::Mixed(Stream::Block)), 0),
                Arg::Bind(Buf::SlotTable, 0),
            ),
            nb * div_ceil(c.hidden_size, 256),
            256,
        ),
    );
    assert(out@ =~= start + experts_commands(*m, *moe, slot_row as int, nb as int, part));
}

} // verus!
