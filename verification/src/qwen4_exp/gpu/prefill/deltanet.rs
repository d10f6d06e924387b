//! Prefill convolution, scan, and output gate of the recurrent mixer.

use crate::qwen4_exp::gpu::deltanet;
use crate::qwen4_exp::gpu::deltanet::{mix_stage, DeltaBufs};
use crate::qwen4_exp::gpu::launch::{Buf, Command};
use crate::qwen4_exp::gpu::model::{Delta, Model};
use crate::qwen4_exp::gpu::prefill::allocation::ScratchBuffer;
use crate::qwen4_exp::gpu::prefill::attention;
use vstd::prelude::*;

verus! {

pub open spec fn prefill_bufs() -> DeltaBufs {
    DeltaBufs {
        qkv: Buf::Scratch(ScratchBuffer::Qkv),
        z: Buf::Scratch(ScratchBuffer::Z),
        a: Buf::Scratch(ScratchBuffer::A),
        b: Buf::Scratch(ScratchBuffer::B),
        kqn: Buf::Scratch(ScratchBuffer::Kqn),
        gbuf: Buf::Scratch(ScratchBuffer::Gbuf),
        delta_y: Buf::Scratch(ScratchBuffer::DeltaY),
    }
}

/// The recurrent mixer over `t` rows, without snapshots.
#[verifier::opaque]
pub open spec fn pf_deltanet_commands(m: Model, d: Delta, t: int) -> Seq<Command> {
    seq![
        attention::product(d.qkv, ScratchBuffer::Mixed, ScratchBuffer::Qkv, t),
        attention::product(d.z, ScratchBuffer::Mixed, ScratchBuffer::Z, t),
        attention::product(d.a, ScratchBuffer::Mixed, ScratchBuffer::A, t),
        attention::product(d.b, ScratchBuffer::Mixed, ScratchBuffer::B, t),
    ] + deltanet::mix_commands(m, d, prefill_bufs(), t, 0) + seq![
        attention::product(d.o, ScratchBuffer::DeltaY, ScratchBuffer::MixOut, t),
    ]
}

/// The gated recurrent mixer over `t` rows as one sequential scan.
pub fn pf_deltanet(out: &mut Vec<Command>, m: &Model, d: &Delta, t: usize)
    requires
        m.plans(t as nat),
    ensures
        final(out)@ == old(out)@ + pf_deltanet_commands(*m, *d, t as int),
{
    reveal(pf_deltanet_commands);
    let ghost start = out@;
    let mixed: Buf = Buf::Scratch(ScratchBuffer::Mixed);
    out.push(Command::Qmm { weights: d.qkv, x: mixed, y: Buf::Scratch(ScratchBuffer::Qkv), rows: t });
    out.push(Command::Qmm { weights: d.z, x: mixed, y: Buf::Scratch(ScratchBuffer::Z), rows: t });
    out.push(Command::Qmm { weights: d.a, x: mixed, y: Buf::Scratch(ScratchBuffer::A), rows: t });
    out.push(Command::Qmm { weights: d.b, x: mixed, y: Buf::Scratch(ScratchBuffer::B), rows: t });
    let bufs = DeltaBufs {
        qkv: Buf::Scratch(ScratchBuffer::Qkv),
        z: Buf::Scratch(ScratchBuffer::Z),
        a: Buf::Scratch(ScratchBuffer::A),
        b: Buf::Scratch(ScratchBuffer::B),
        kqn: Buf::Scratch(ScratchBuffer::Kqn),
        gbuf: Buf::Scratch(ScratchBuffer::Gbuf),
        delta_y: Buf::Scratch(ScratchBuffer::DeltaY),
    };
    mix_stage(out, m, d, &bufs, t, 0);
    out.push(
        Command::Qmm {
            weights: d.o,
            x: Buf::Scratch(ScratchBuffer::DeltaY),
            y: Buf::Scratch(ScratchBuffer::MixOut),
            rows: t,
        },
    );
    assert(out@ =~= start + pf_deltanet_commands(*m, *d, t as int));
}

} // verus!
