//! One decoder block with the event handshake around its experts.

use crate::qwen4_exp::gpu::attention;
use crate::qwen4_exp::gpu::attention::attention_b;
use crate::qwen4_exp::gpu::deltanet;
use crate::qwen4_exp::gpu::deltanet::deltanet_b;
use crate::qwen4_exp::gpu::experts;
use crate::qwen4_exp::gpu::experts::{experts_b, router_b};
use crate::qwen4_exp::gpu::hyperconnection;
use crate::qwen4_exp::gpu::hyperconnection::hc_read_b;
use crate::qwen4_exp::gpu::launch;
use crate::qwen4_exp::gpu::launch::{Buf, Command, Event, RowBuffer, Stream};
use crate::qwen4_exp::gpu::model::{Layer, Mix, Model};
use crate::qwen4_exp::gpu::streaming::BlockSignals;
use vstd::prelude::*;

verus! {

/// The mixer of a block over `n` rows.
pub open spec fn mixer_commands(m: Model, mix: Mix, base: int, n: int, snap_after: int) -> Seq<Command> {
    if m.skips.mixer {
        Seq::empty()
    } else {
        match mix {
            Mix::Attn(a) => attention::attention_commands(m, a, base, n),
            Mix::Delta(d) => deltanet::deltanet_commands(m, d, n, snap_after),
        }
    }
}

/// The router's buffers for a block, or for the lookahead behind it.
pub open spec fn routing_commands(m: Model, layer: Layer, n: int, stream: Stream) -> Seq<Command> {
    let (logits, idx, w) = match stream {
        Stream::Block => (RowBuffer::Router, RowBuffer::TopkIdx, RowBuffer::TopkW),
        Stream::Lookahead => (RowBuffer::LaRouter, RowBuffer::LaIdx, RowBuffer::LaW),
    };
    experts::router_commands(
        m,
        layer.moe,
        n,
        Buf::Row(RowBuffer::Mixed(stream)),
        Buf::Row(logits),
        Buf::Row(idx),
        Buf::Row(w),
        m.cfg.num_experts_per_tok,
    )
}

/// One block over `n` rows of `hyper`. The device signals when its routes are readable,
/// runs the resident experts once the table is published, signals that they are done, and
/// runs the fetched ones once they are released. With a lookahead the next layer's routing
/// is approximated on the current stream.
pub open spec fn block_commands(
    m: Model,
    layer: Layer,
    slot_row: int,
    base: int,
    n: int,
    snap_after: int,
    hyper: Buf,
    pending: Option<Buf>,
    lookahead: Option<Layer>,
    seq: int,
) -> Seq<Command> {
    hyperconnection::hc_read_commands(m, layer.attn_hc, n, hyper, 0, pending, Stream::Block, true) + mixer_commands(
        m,
        layer.mix,
        base,
        n,
        snap_after,
    ) + hyperconnection::hc_read_commands(
        m,
        layer.mlp_hc,
        n,
        hyper,
        0,
        Some(Buf::Row(RowBuffer::MixOut)),
        Stream::Block,
        true,
    ) + routing_commands(m, layer, n, Stream::Block) + lookahead_commands(m, lookahead, n, hyper) + release(
        Event::Main,
        seq,
        seq + 1,
    ) + experts::experts_commands(m, layer.moe, slot_row, n, 0) + release(
        Event::Resident,
        seq + 2,
        seq + 3,
    ) + experts::experts_commands(m, layer.moe, slot_row, n, 1)
}

pub open spec fn ahead_of(lookahead: Option<&Layer>) -> Option<Layer> {
    match lookahead {
        Some(next) => Some(*next),
        None => None,
    }
}

/// The next layer's routing on the current stream.
pub open spec fn lookahead_commands(m: Model, lookahead: Option<Layer>, n: int, hyper: Buf) -> Seq<Command> {
    match lookahead {
        Some(next) => hyperconnection::hc_read_commands(
            m,
            next.mlp_hc,
            n,
            hyper,
            0,
            None,
            Stream::Lookahead,
            false,
        ) + routing_commands(m, next, n, Stream::Lookahead),
        None => Seq::empty(),
    }
}

/// The pass ends, `event` is signaled, and the next pass begins behind the processor's release.
pub open spec fn release(event: Event, signaled: int, awaited: int) -> Seq<Command> {
    seq![
        Command::EndPass,
        Command::Signal(event, signaled as u64),
        Command::Wait(Event::Main, awaited as u64),
        Command::BeginPass,
    ]
}

fn mixer_stage(out: &mut Vec<Command>, m: &Model, mix: &Mix, base_pos: usize, nb: usize, snap_after: usize)
    requires
        m.plans(nb as nat),
        base_pos + nb <= m.max_t,
    ensures
        final(out)@ == old(out)@ + mixer_commands(*m, *mix, base_pos as int, nb as int, snap_after as int),
{
    if m.skips.mixer {
        assert(out@ =~= out@ + Seq::<Command>::empty());
        return;
    }
    match mix {
        Mix::Attn(a) => {
            attention_b(out, m, a, base_pos, nb);
        },
        Mix::Delta(d) => {
            deltanet_b(out, m, d, nb, snap_after);
        },
    }
}

fn routing_stage(out: &mut Vec<Command>, m: &Model, layer: &Layer, nb: usize, stream: Stream)
    requires
        m.plans(nb as nat),
    ensures
        final(out)@ == old(out)@ + routing_commands(*m, *layer, nb as int, stream),
{
    let (logits, idx, w): (RowBuffer, RowBuffer, RowBuffer) = match stream {
        Stream::Block => (RowBuffer::Router, RowBuffer::TopkIdx, RowBuffer::TopkW),
        Stream::Lookahead => (RowBuffer::LaRouter, RowBuffer::LaIdx, RowBuffer::LaW),
    };
    router_b(
        out,
        m,
        &layer.moe,
        nb,
        Buf::Row(RowBuffer::Mixed(stream)),
        Buf::Row(logits),
        Buf::Row(idx),
        Buf::Row(w),
        m.cfg.num_experts_per_tok,
    );
}

fn lookahead_stage(out: &mut Vec<Command>, m: &Model, lookahead: Option<&Layer>, nb: usize, hyper: Buf)
    requires
        m.plans(nb as nat),
    ensures
        final(out)@ == old(out)@ + lookahead_commands(*m, ahead_of(lookahead), nb as int, hyper),
{
    let ghost start = out@;
    match lookahead {
        Some(next) => {
            hc_read_b(out, m, &next.mlp_hc, nb, hyper, 0, None, Stream::Lookahead, false);
            routing_stage(out, m, next, nb, Stream::Lookahead);
            proof {
                launch::lemma_behind(
                    start,
                    hyperconnection::hc_read_commands(
                        *m,
                        next.mlp_hc,
                        nb as int,
                        hyper,
                        0,
                        None,
                        Stream::Lookahead,
                        false,
                    ),
                    routing_commands(*m, *next, nb as int, Stream::Lookahead),
                );
            }
        },
        None => {
            assert(out@ =~= out@ + Seq::<Command>::empty());
        },
    }
}

/// Plan one block over `nb` rows of `hyper`; its expert output is left for the next fused
/// norm to inject.
pub fn encode_block(
    out: &mut Vec<Command>,
    m: &Model,
    layer: &Layer,
    slot_row: usize,
    base_pos: usize,
    nb: usize,
    snap_after: usize,
    hyper: Buf,
    pending: Option<Buf>,
    lookahead: Option<&Layer>,
    seq: u64,
)
    requires
        m.plans(nb as nat),
        experts::experts_fit(*m, nb as int),
        base_pos + nb <= m.max_t,
        seq + 3 <= u64::MAX,
    ensures
        final(out)@ == old(out)@ + block_commands(
            *m,
            *layer,
            slot_row as int,
            base_pos as int,
            nb as int,
            snap_after as int,
            hyper,
            pending,
            ahead_of(lookahead),
            seq as int,
        ),
{
    let ghost start = out@;
    let signals: BlockSignals = BlockSignals::new(seq);
    hc_read_b(out, m, &layer.attn_hc, nb, hyper, 0, pending, Stream::Block, true);
    let ghost s1 = hyperconnection::hc_read_commands(
        *m,
        layer.attn_hc,
        nb as int,
        hyper,
        0,
        pending,
        Stream::Block,
        true,
    );
    mixer_stage(out, m, &layer.mix, base_pos, nb, snap_after);
    let ghost x2 = mixer_commands(*m, layer.mix, base_pos as int, nb as int, snap_after as int);
    let ghost s2 = s1 + x2;
    proof {
        launch::lemma_behind(start, s1, x2);
    }
    hc_read_b(out, m, &layer.mlp_hc, nb, hyper, 0, Some(Buf::Row(RowBuffer::MixOut)), Stream::Block, true);
    let ghost x3 = hyperconnection::hc_read_commands(
        *m,
        layer.mlp_hc,
        nb as int,
        hyper,
        0,
        Some(Buf::Row(RowBuffer::MixOut)),
        Stream::Block,
        true,
    );
    let ghost s3 = s2 + x3;
    proof {
        launch::lemma_behind(start, s2, x3);
    }
    routing_stage(out, m, layer, nb, Stream::Block);
    let ghost x4 = routing_commands(*m, *layer, nb as int, Stream::Block);
    let ghost s4 = s3 + x4;
    proof {
        launch::lemma_behind(start, s3, x4);
    }
    lookahead_stage(out, m, lookahead, nb, hyper);
    let ghost x5 = lookahead_commands(*m, ahead_of(lookahead), nb as int, hyper);
    let ghost s5 = s4 + x5;
    proof {
        launch::lemma_behind(start, s4, x5);
    }
    out.push(Command::EndPass);
    out.push(Command::Signal(Event::Main, signals.router_ready));
    out.push(Command::Wait(Event::Main, signals.resident_ready));
    out.push(Command::BeginPass);
    let ghost x6 = release(Event::Main, seq as int, seq + 1);
    let ghost s6 = s5 + x6;
    proof {
        assert(out@ =~= (start + s5) + x6);
        launch::lemma_behind(start, s5, x6);
    }
    experts_b(out, m, &layer.moe, slot_row, nb, 0);
    let ghost x7 = experts::experts_commands(*m, layer.moe, slot_row as int, nb as int, 0);
    let ghost s7 = s6 + x7;
    proof {
        launch::lemma_behind(start, s6, x7);
    }
    out.push(Command::EndPass);
    out.push(Command::Signal(Event::Resident, signals.resident_done));
    out.push(Command::Wait(Event::Main, signals.misses_ready));
    out.push(Command::BeginPass);
    let ghost x8 = release(Event::Resident, seq + 2, seq + 3);
    let ghost s8 = s7 + x8;
    proof {
        assert(out@ =~= (start + s7) + x8);
        launch::lemma_behind(start, s7, x8);
    }
    experts_b(out, m, &layer.moe, slot_row, nb, 1);
    proof {
        launch::lemma_behind(
            start,
            s8,
            experts::experts_commands(*m, layer.moe, slot_row as int, nb as int, 1),
        );
    }
}

} // verus!
