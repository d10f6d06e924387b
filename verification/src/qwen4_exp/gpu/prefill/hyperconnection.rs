//! Prefill grouped residual reads and injection.

use crate::number::Real32;
use crate::qwen4_exp::gpu::hyperconnection;
use crate::qwen4_exp::gpu::hyperconnection::{group_norm_b, group_params, inject_rows};
use crate::qwen4_exp::gpu::launch::{args3, args5, threads, Arg, Buf, Command, GroupParams, Hc, Pipe};
use crate::qwen4_exp::gpu::model::Model;
use crate::qwen4_exp::gpu::prefill::allocation::ScratchBuffer;
use crate::qwen4_exp::gpu::prefill::attention;
use vstd::prelude::*;

verus! {

/// Inject a block output into `t` rows of a stream with the chunk's logits.
pub fn pf_inject(out: &mut Vec<Command>, m: &Model, hyper: Buf, output: Buf, inj: Buf, t: usize)
    requires
        m.plans(t as nat),
    ensures
        final(out)@ == old(out)@.push(hyperconnection::inject_command(*m, hyper, output, inj, t as int)),
{
    inject_rows(out, m, hyper, output, inj, t);
}

/// A gated residual read over `t` rows: the block input lands in the mixed rows, the
/// injection logits in their own.
#[verifier::opaque]
pub open spec fn pf_hc_read_commands(
    m: Model,
    hc: Hc,
    t: int,
    hyper: Buf,
    pending: Option<Buf>,
    inject: bool,
) -> Seq<Command> {
    let c = m.cfg;
    let zero = Real32 { bits: 0 };
    let inj = Buf::Scratch(ScratchBuffer::Inj);
    let normed = Buf::Scratch(ScratchBuffer::Normed);
    let first = match pending {
        Some(output) => seq![hyperconnection::inject_command(m, hyper, output, inj, t)],
        None => Seq::empty(),
    };
    let gate = seq![
        hyperconnection::group_norm_command(
            m,
            hyper,
            0,
            hc.norm,
            normed,
            c.hidden_size as u32,
            c.hc_count as u32,
            zero,
            t,
        ),
        attention::product(hc.down, ScratchBuffer::Normed, ScratchBuffer::D, t),
        threads(
            Pipe::SiluRows,
            args3(
                Arg::Bind(Buf::Scratch(ScratchBuffer::D), 0),
                Arg::Word((t * hc.down.out) as u32),
                Arg::Number(m.figures.streams),
            ),
            (t * hc.down.out) as usize,
            256,
        ),
        attention::product(hc.up, ScratchBuffer::D, ScratchBuffer::U, t),
    ];
    let logits = match hc.inject {
        Some(q) if inject => seq![attention::product(q, ScratchBuffer::Normed, ScratchBuffer::Inj, t)],
        _ => Seq::empty(),
    };
    let mix = seq![
        threads(
            Pipe::HcMixB,
            args5(
                Arg::Bind(Buf::Scratch(ScratchBuffer::U), 0),
                Arg::Bind(normed, 0),
                Arg::Bind(Buf::Scratch(ScratchBuffer::Mixed), 0),
                Arg::Group(hyperconnection::grouping(m, false, zero)),
                Arg::Word(t as u32),
            ),
            (t * (c.hidden_size as u32)) as usize,
            256,
        ),
    ];
    first + gate + logits + mix
}

pub fn pf_hc_read(out: &mut Vec<Command>, m: &Model, hc: &Hc, t: usize, hyper: Buf, pending: Option<Buf>, inject: bool)
    requires
        m.plans(t as nat),
        t * hc.down.out <= u32::MAX,
    ensures
        final(out)@ == old(out)@ + pf_hc_read_commands(*m, *hc, t as int, hyper, pending, inject),
{
    reveal(pf_hc_read_commands);
    let ghost start = out@;
    let c = &m.cfg;
    let zero: Real32 = Real32 { bits: 0 };
    let inj: Buf = Buf::Scratch(ScratchBuffer::Inj);
    let normed: Buf = Buf::Scratch(ScratchBuffer::Normed);
    proof {
        hyperconnection::lemma_stream_products(*m, t as nat);
    }
    match pending {
        Some(output) => {
            pf_inject(out, m, hyper, output, inj, t);
        },
        None => {},
    }
    group_norm_b(out, m, hyper, 0, hc.norm, normed, c.hidden_size as u32, c.hc_count as u32, zero, t);
    out.push(Command::Qmm { weights: hc.down, x: normed, y: Buf::Scratch(ScratchBuffer::D), rows: t });
    let n: usize = t * hc.down.out as usize;
    out.push(
        threads(
            Pipe::SiluRows,
            args3(
                Arg::Bind(Buf::Scratch(ScratchBuffer::D), 0),
                Arg::Word(n as u32),
                Arg::Number(m.figures.streams),
            ),
            n,
            256,
        ),
    );
    out.push(
        Command::Qmm {
            weights: hc.up,
            x: Buf::Scratch(ScratchBuffer::D),
            y: Buf::Scratch(ScratchBuffer::U),
            rows: t,
        },
    );
    if inject {
        match hc.inject {
            Some(q) => {
                out.push(Command::Qmm { weights: q, x: normed, y: inj, rows: t });
            },
            None => {},
        }
    }
    let gp: GroupParams = group_params(m, false, zero);
    out.push(
        threads(
            Pipe::HcMixB,
            args5(
                Arg::Bind(Buf::Scratch(ScratchBuffer::U), 0),
                Arg::Bind(normed, 0),
                Arg::Bind(Buf::Scratch(ScratchBuffer::Mixed), 0),
                Arg::Group(gp),
                Arg::Word(t as u32),
            ),
            t * c.hidden_size as u32 as usize,
            256,
        ),
    );
    assert(out@ =~= start + pf_hc_read_commands(*m, *hc, t as int, hyper, pending, inject));
}

} // verus!
