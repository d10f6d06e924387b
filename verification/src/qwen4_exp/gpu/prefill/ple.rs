//! Prefill n-gram gather, gating, and dilated convolution.

use crate::number::Real32;
use crate::qwen4_exp::gpu::hyperconnection;
use crate::qwen4_exp::gpu::hyperconnection::{group_norm_b, group_params};
use crate::qwen4_exp::gpu::launch::{
    args5, args6, groups, threads, Arg, Buf, Command, GroupParams, LayerBuffer, Pipe, PleConvParams,
};
use crate::qwen4_exp::gpu::model::{Model, Ple};
use crate::qwen4_exp::gpu::prefill::allocation::ScratchBuffer;
use crate::qwen4_exp::gpu::prefill::attention;
use vstd::prelude::*;

verus! {

/// Why the n-gram block cannot run.
#[derive(Debug, Clone, Copy, PartialEq, Eq, Structural)]
pub enum PleError {
    TooWide,
    HeadLayout,
}

impl PleError {
    pub fn message(&self) -> (r: &'static str)
        ensures
            r@ == match *self {
                PleError::TooWide => "PLE embedding wider than the hidden size"@,
                PleError::HeadLayout => "n-gram head layout mismatch"@,
            },
    {
        match self {
            PleError::TooWide => "PLE embedding wider than the hidden size",
            PleError::HeadLayout => "n-gram head layout mismatch",
        }
    }
}

/// One table row to copy: its id and the word where it lands.
#[derive(Debug, Clone, Copy, PartialEq, Eq, Structural)]
pub struct Gather {
    pub id: u64,
    pub word: usize,
}

/// The rows of `n` heads of row `b`, one after the other.
pub open spec fn row_gather(ids: Seq<u64>, b: int, embed: int, dim: int, n: int) -> Seq<Gather> {
    Seq::new(n as nat, |h: int| Gather { id: ids[h], word: (b * embed + h * dim) as usize })
}

/// The table rows of the first `n` rows of a chunk.
pub open spec fn gathers(rows: Seq<Vec<u64>>, embed: int, dim: int, n: int) -> Seq<Gather>
    decreases n,
{
    if n <= 0 {
        Seq::empty()
    } else {
        gathers(rows, embed, dim, n - 1) + row_gather(rows[n - 1]@, n - 1, embed, dim, rows[n - 1]@.len() as int)
    }
}

/// The embedding fits the stream, and every row's heads fill it.
pub open spec fn gather_check(rows: Seq<Vec<u64>>, embed: int, hidden: int, dim: int) -> Option<PleError> {
    if embed > hidden {
        Some(PleError::TooWide)
    } else if exists|b: int| 0 <= b < rows.len() && (#[trigger] rows[b])@.len() * dim != embed {
        Some(PleError::HeadLayout)
    } else {
        None
    }
}

/// The table rows of a chunk, given the hashed ids of each of its rows. Head `h` of row `b`
/// lands behind the rows and heads before it.
pub fn gather_rows(rows: &Vec<Vec<u64>>, embed: usize, hidden: usize, dim: usize) -> (r: Result<Vec<Gather>, PleError>)
    requires
        rows@.len() * embed <= usize::MAX,
        forall|b: int| 0 <= b < rows@.len() ==> (#[trigger] rows@[b])@.len() * dim <= usize::MAX,
    ensures
        match r {
            Ok(list) => {
                &&& gather_check(rows@, embed as int, hidden as int, dim as int) is None
                &&& list@ == gathers(rows@, embed as int, dim as int, rows@.len() as int)
            },
            Err(e) => gather_check(rows@, embed as int, hidden as int, dim as int) == Some(e),
        },
{
    if embed > hidden {
        return Err(PleError::TooWide);
    }
    let mut list: Vec<Gather> = Vec::new();
    let mut b: usize = 0;
    while b < rows.len()
        invariant
            b <= rows.len(),
            embed <= hidden,
            rows@.len() * embed <= usize::MAX,
            forall|k: int| 0 <= k < rows@.len() ==> (#[trigger] rows@[k])@.len() * dim <= usize::MAX,
            forall|k: int| 0 <= k < b ==> (#[trigger] rows@[k])@.len() * dim == embed,
            list@ == gathers(rows@, embed as int, dim as int, b as int),
        decreases rows.len() - b,
    {
        let ids: &Vec<u64> = &rows[b];
        assert(rows@[b as int]@.len() * dim <= usize::MAX);
        if ids.len() * dim != embed {
            assert(rows@[b as int]@.len() * dim != embed);
            return Err(PleError::HeadLayout);
        }
        let ghost done = list@;
        assert(b * embed + embed <= rows@.len() * embed) by (nonlinear_arith)
            requires
                b + 1 <= rows@.len(),
                embed >= 0,
        ;
        let mut h: usize = 0;
        while h < ids.len()
            invariant
                h <= ids.len(),
                ids.len() * dim == embed,
                b * embed + embed <= usize::MAX,
                list@ == done + row_gather(ids@, b as int, embed as int, dim as int, h as int),
            decreases ids.len() - h,
        {
            assert(0 <= h * dim <= ids.len() * dim) by (nonlinear_arith)
                requires
                    h <= ids.len(),
                    dim >= 0,
            ;
            assert(0 <= b * embed) by (nonlinear_arith)
                requires
                    b >= 0,
                    embed >= 0,
            ;
            list.push(Gather { id: ids[h], word: b * embed + h * dim });
            assert(list@ =~= done + row_gather(ids@, b as int, embed as int, dim as int, h + 1));
            h = h + 1;
        }
        b = b + 1;
    }
    Ok(list)
}

/// The n-gram block over `t` rows from position `base`. Nothing else is live between
/// blocks, so its buffers are the stream-wide scratch: embeddings in the mixer output, keys
/// (and later the output) in the normed stream, normed keys in the gates, values in the
/// mixed rows, queries in the convolution channels, gated values in the folded streams and
/// their norm in the draft head's stream.
#[verifier::opaque]
pub open spec fn pf_ple_commands(m: Model, pl: Ple, base: int, t: int) -> Seq<Command> {
    let c = m.cfg;
    let zero = Real32 { bits: 0 };
    let h = c.hidden_size as u32;
    let count = c.hc_count as u32;
    let hyper = Buf::Scratch(ScratchBuffer::Hyper);
    let key = Buf::Scratch(ScratchBuffer::Normed);
    let keyn = Buf::Scratch(ScratchBuffer::U);
    let value = Buf::Scratch(ScratchBuffer::Mixed);
    let query = Buf::Scratch(ScratchBuffer::Qkv);
    let gated = Buf::Scratch(ScratchBuffer::Fh);
    let gvn = Buf::Scratch(ScratchBuffer::MtpHyper);
    seq![
        attention::product(pl.key, ScratchBuffer::MixOut, ScratchBuffer::Normed, t),
        attention::product(pl.value, ScratchBuffer::MixOut, ScratchBuffer::Mixed, t),
        hyperconnection::group_norm_command(m, key, 0, pl.norm_key, keyn, h, count, zero, t),
        hyperconnection::group_norm_command(m, hyper, 0, pl.norm_query, query, h, count, zero, t),
        groups(
            Pipe::PleGateB,
            args5(
                Arg::Bind(keyn, 0),
                Arg::Bind(query, 0),
                Arg::Bind(value, 0),
                Arg::Bind(gated, 0),
                Arg::Group(hyperconnection::grouping(m, true, zero)),
            ),
            (t * c.hc_count) as usize,
            256,
        ),
        hyperconnection::group_norm_command(m, gated, 0, pl.norm_conv, gvn, h, count, zero, t),
        threads(
            Pipe::PleConvB,
            args6(
                Arg::Bind(gated, 0),
                Arg::Bind(gvn, 0),
                Arg::Bind(Buf::Dense, pl.conv),
                Arg::Bind(Buf::Layer(LayerBuffer::NgramHistory), 0),
                Arg::Bind(key, 0),
                Arg::PleConv(
                    PleConvParams {
                        channels: c.stream() as u32,
                        ksize: pl.kernel,
                        dilation: pl.dilation,
                        span: pl.span,
                        filled: base as u32,
                        nb: t as u32,
                    },
                ),
            ),
            c.stream() as usize,
            256,
        ),
        Command::AddInto { into: hyper, from: key, count: (t * c.stream()) as usize },
    ]
}

/// The device work of the n-gram block behind the gather.
pub fn pf_ple(out: &mut Vec<Command>, m: &Model, pl: &Ple, base: usize, t: usize)
    requires
        m.plans(t as nat),
        base + t <= m.max_t,
    ensures
        final(out)@ == old(out)@ + pf_ple_commands(*m, *pl, base as int, t as int),
{
    reveal(pf_ple_commands);
    let ghost start = out@;
    let c = &m.cfg;
    let zero: Real32 = Real32 { bits: 0 };
    proof {
        hyperconnection::lemma_stream_products(*m, t as nat);
    }
    let h: u32 = c.hidden_size as u32;
    let count: u32 = c.hc_count as u32;
    let hyper: Buf = Buf::Scratch(ScratchBuffer::Hyper);
    let e: Buf = Buf::Scratch(ScratchBuffer::MixOut);
    let key: Buf = Buf::Scratch(ScratchBuffer::Normed);
    let keyn: Buf = Buf::Scratch(ScratchBuffer::U);
    let value: Buf = Buf::Scratch(ScratchBuffer::Mixed);
    let query: Buf = Buf::Scratch(ScratchBuffer::Qkv);
    let gated: Buf = Buf::Scratch(ScratchBuffer::Fh);
    let gvn: Buf = Buf::Scratch(ScratchBuffer::MtpHyper);
    let width: usize = c.hc_hidden();
    out.push(Command::Qmm { weights: pl.key, x: e, y: key, rows: t });
    out.push(Command::Qmm { weights: pl.value, x: e, y: value, rows: t });
    group_norm_b(out, m, key, 0, pl.norm_key, keyn, h, count, zero, t);
    group_norm_b(out, m, hyper, 0, pl.norm_query, query, h, count, zero, t);
    let gp: GroupParams = group_params(m, true, zero);
    out.push(
        groups(
            Pipe::PleGateB,
            args5(
                Arg::Bind(keyn, 0),
                Arg::Bind(query, 0),
                Arg::Bind(value, 0),
                Arg::Bind(gated, 0),
                Arg::Group(gp),
            ),
            t * c.hc_count,
            256,
        ),
    );
    group_norm_b(out, m, gated, 0, pl.norm_conv, gvn, h, count, zero, t);
    let cp = PleConvParams {
        channels: width as u32,
        ksize: pl.kernel,
        dilation: pl.dilation,
        span: pl.span,
        filled: base as u32,
        nb: t as u32,
    };
    out.push(
        threads(
            Pipe::PleConvB,
            args6(
                Arg::Bind(gated, 0),
                Arg::Bind(gvn, 0),
                Arg::Bind(Buf::Dense, pl.conv),
                Arg::Bind(Buf::Layer(LayerBuffer::NgramHistory), 0),
                Arg::Bind(key, 0),
                Arg::PleConv(cp),
            ),
            width,
            256,
        ),
    );
    out.push(Command::AddInto { into: hyper, from: key, count: t * width });
    assert(out@ =~= start + pf_ple_commands(*m, *pl, base as int, t as int));
}

} // verus!
