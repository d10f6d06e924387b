//! Draft-head execution and folded and chained draft inputs.

use crate::number::{Real32, ONE32};
use crate::qwen4_exp::gpu::block;
use crate::qwen4_exp::gpu::block::encode_block;
use crate::qwen4_exp::gpu::experts;
use crate::qwen4_exp::gpu::hyperconnection;
use crate::qwen4_exp::gpu::hyperconnection::{group_norm_b, group_params};
use crate::qwen4_exp::gpu::launch;
use crate::qwen4_exp::gpu::launch::{
    args5, args8, threads, Arg, Buf, Command, GroupParams, Pipe, Prepared, RowBuffer, Stream,
};
use crate::qwen4_exp::gpu::model::{Model, Mtp};
use crate::text;
use crate::text::decimal;
use vstd::prelude::*;
use vstd::string::*;

verus! {

/// Why the draft head cannot run.
#[derive(Debug, Clone, Copy, PartialEq, Eq, Structural)]
pub enum DraftError {
    /// The rows are not those of the last commit.
    Rows,
    /// The head's cache does not end where the batch begins.
    OutOfStep { cached: usize, batch: usize },
    Capacity,
    /// More chained passes than a batch may hold.
    Passes { most: usize },
}

impl DraftError {
    pub open spec fn text(self) -> Seq<char> {
        match self {
            DraftError::Rows => "MTP rows must match the committed rows"@,
            DraftError::OutOfStep { cached, batch } => "MTP cache out of step: "@ + text::decimal_of(cached as nat)
                + " vs "@ + text::decimal_of(batch as nat),
            DraftError::Capacity => "context capacity exceeded"@,
            DraftError::Passes { most } => "chained passes must be 1..="@ + text::decimal_of(most as nat),
        }
    }

    pub fn message(&self) -> (r: String)
        ensures
            r@ == self.text(),
    {
        match self {
            DraftError::Rows => "MTP rows must match the committed rows".to_owned(),
            DraftError::OutOfStep { cached, batch } => {
                let mut out: String = "MTP cache out of step: ".to_owned();
                out.append(decimal(*cached as u64).as_str());
                out.append(" vs ");
                out.append(decimal(*batch as u64).as_str());
                out
            },
            DraftError::Capacity => "context capacity exceeded".to_owned(),
            DraftError::Passes { most } => {
                let mut out: String = "chained passes must be 1..=".to_owned();
                out.append(decimal(*most as u64).as_str());
                out
            },
        }
    }
}

/// The rows of token embeddings from a place in an id buffer.
pub open spec fn embed_command(m: Model, ids: Buf, e: Buf, first: int, rows: int) -> Command {
    let h = m.cfg.hidden_size as u32;
    threads(
        Pipe::EmbedRows,
        args8(
            Arg::Bind(ids, 0),
            Arg::Bind(Buf::Dense, m.embed.w),
            Arg::Bind(Buf::Dense, m.embed.s),
            Arg::Bind(Buf::Dense, m.embed.b),
            Arg::Bind(e, 0),
            Arg::Word(h),
            Arg::Word(first as u32),
            Arg::Word(rows as u32),
        ),
        (rows * h) as usize,
        256,
    )
}

pub fn embed_rows(out: &mut Vec<Command>, m: &Model, ids: Buf, e: Buf, first: usize, rows: usize)
    requires
        m.plans(rows as nat),
    ensures
        final(out)@ == old(out)@.push(embed_command(*m, ids, e, first as int, rows as int)),
{
    proof {
        hyperconnection::lemma_stream_products(*m, rows as nat);
    }
    let h: u32 = m.cfg.hidden_size as u32;
    out.push(
        threads(
            Pipe::EmbedRows,
            args8(
                Arg::Bind(ids, 0),
                Arg::Bind(Buf::Dense, m.embed.w),
                Arg::Bind(Buf::Dense, m.embed.s),
                Arg::Bind(Buf::Dense, m.embed.b),
                Arg::Bind(e, 0),
                Arg::Word(h),
                Arg::Word(first as u32),
                Arg::Word(rows as u32),
            ),
            rows * h as usize,
            256,
        ),
    );
}

/// The folded embeddings and streams become the head's stream.
pub open spec fn fold_command(m: Model, fe: Buf, fh: Buf, hyper: Buf, rows: int) -> Command {
    threads(
        Pipe::MtpFold,
        args5(
            Arg::Bind(fe, 0),
            Arg::Bind(fh, 0),
            Arg::Bind(hyper, 0),
            Arg::Group(hyperconnection::grouping(m, false, Real32 { bits: 0 })),
            Arg::Word(rows as u32),
        ),
        (rows * m.cfg.stream()) as usize,
        256,
    )
}

pub fn fold_rows(out: &mut Vec<Command>, m: &Model, fe: Buf, fh: Buf, hyper: Buf, rows: usize)
    requires
        m.plans(rows as nat),
    ensures
        final(out)@ == old(out)@.push(fold_command(*m, fe, fh, hyper, rows as int)),
{
    proof {
        hyperconnection::lemma_stream_products(*m, rows as nat);
    }
    let gp: GroupParams = group_params(m, false, Real32 { bits: 0 });
    out.push(
        threads(
            Pipe::MtpFold,
            args5(Arg::Bind(fe, 0), Arg::Bind(fh, 0), Arg::Bind(hyper, 0), Arg::Group(gp), Arg::Word(rows as u32)),
            rows * m.cfg.hc_hidden(),
            256,
        ),
    );
}

/// The head's input stream for `rows` rows: tokens from a place in the id buffer, residual
/// rows from `src` at a byte offset, folded into the head's stream.
pub open spec fn prelude_commands(m: Model, mtp: Mtp, rows: int, ids_in: int, src: Buf, off: usize) -> Seq<Command> {
    let c = m.cfg;
    let h = c.hidden_size as u32;
    let one = Real32 { bits: ONE32 };
    let input = Prepared::Input(Stream::Block);
    let mixed = Buf::Row(RowBuffer::Mixed(Stream::Block));
    let normed = Buf::Row(RowBuffer::Normed(Stream::Block));
    let wide = (rows * c.hc_count) as usize;
    seq![
        embed_command(m, Buf::Row(RowBuffer::Ids), Buf::Row(RowBuffer::E), ids_in, rows),
        hyperconnection::group_norm_command(m, Buf::Row(RowBuffer::E), 0, mtp.enorm, mixed, h, 1, one, rows),
        Command::PrepH { x: mixed, offset: 0, width: h, rows: rows as usize, prepared: input },
        Command::QmvH { weights: mtp.fc_e, y: Buf::Row(RowBuffer::Fe), rows: rows as usize, input },
        hyperconnection::group_norm_command(m, src, off, mtp.hnorm, normed, h, c.hc_count as u32, one, rows),
        Command::PrepH { x: normed, offset: 0, width: h, rows: wide, prepared: input },
        Command::QmvH { weights: mtp.fc_h, y: Buf::Row(RowBuffer::Fh), rows: wide, input },
        fold_command(
            m,
            Buf::Row(RowBuffer::Fe),
            Buf::Row(RowBuffer::Fh),
            Buf::Row(RowBuffer::MtpHyper),
            rows,
        ),
    ]
}

pub fn encode_mtp_prelude(out: &mut Vec<Command>, m: &Model, mtp: &Mtp, rows: usize, ids_in: usize, src: Buf, off: usize)
    requires
        m.plans(rows as nat),
    ensures
        final(out)@ == old(out)@ + prelude_commands(*m, *mtp, rows as int, ids_in as int, src, off),
{
    let ghost start = out@;
    let c = &m.cfg;
    let h: u32 = c.hidden_size as u32;
    let one: Real32 = Real32 { bits: ONE32 };
    let input: Prepared = Prepared::Input(Stream::Block);
    let mixed: Buf = Buf::Row(RowBuffer::Mixed(Stream::Block));
    let normed: Buf = Buf::Row(RowBuffer::Normed(Stream::Block));
    proof {
        hyperconnection::lemma_stream_products(*m, rows as nat);
    }
    let wide: usize = rows * c.hc_count;
    embed_rows(out, m, Buf::Row(RowBuffer::Ids), Buf::Row(RowBuffer::E), ids_in, rows);
    group_norm_b(out, m, Buf::Row(RowBuffer::E), 0, mtp.enorm, mixed, h, 1, one, rows);
    out.push(Command::PrepH { x: mixed, offset: 0, width: h, rows, prepared: input });
    out.push(Command::QmvH { weights: mtp.fc_e, y: Buf::Row(RowBuffer::Fe), rows, input });
    group_norm_b(out, m, src, off, mtp.hnorm, normed, h, c.hc_count as u32, one, rows);
    out.push(Command::PrepH { x: normed, offset: 0, width: h, rows: wide, prepared: input });
    out.push(Command::QmvH { weights: mtp.fc_h, y: Buf::Row(RowBuffer::Fh), rows: wide, input });
    fold_rows(
        out,
        m,
        Buf::Row(RowBuffer::Fe),
        Buf::Row(RowBuffer::Fh),
        Buf::Row(RowBuffer::MtpHyper),
        rows,
    );
    assert(out@ =~= start + prelude_commands(*m, *mtp, rows as int, ids_in as int, src, off));
}

/// One pass of the draft head.
#[derive(Debug, Clone, Copy, PartialEq, Eq, Structural)]
pub struct Pass {
    pub rows: usize,
    /// Position of the first row.
    pub base_pos: usize,
    /// The residual rows come from the trunk; otherwise from the head's own row `src_row`.
    pub from_trunk: bool,
    pub src_row: usize,
}

/// The head's block behind its input, over the head's own stream.
pub open spec fn head_block(m: Model, mtp: Mtp, slot_row: int, base: int, rows: int, seq: int) -> Seq<Command> {
    block::block_commands(
        m,
        mtp.layer,
        slot_row,
        base,
        rows,
        0,
        Buf::Row(RowBuffer::MtpHyper),
        None,
        None,
        seq,
    )
}

/// The output head of the draft stream.
pub open spec fn head_command(mtp: Mtp, rows: int, logits: RowBuffer, ids_out: int) -> Command {
    Command::Head {
        mixer: mtp.mixer,
        rows: rows as usize,
        hyper: Buf::Row(RowBuffer::MtpHyper),
        offset: 0,
        pending: Some(Buf::Row(RowBuffer::MoeOut)),
        logits: Buf::Row(logits),
        ids_out: ids_out as usize,
    }
}

/// One pass: input, block and output head.
pub open spec fn pass_commands(m: Model, mtp: Mtp, pass: Pass, slot_row: int, seq: int) -> Seq<Command> {
    let (src, off) = if pass.from_trunk {
        (Buf::Row(RowBuffer::Hyper), 0int)
    } else {
        (Buf::Row(RowBuffer::MtpHyper), pass.src_row * (4 * m.cfg.stream()))
    };
    prelude_commands(m, mtp, pass.rows as int, m.ids.draft_in as int, src, off as usize) + head_block(
        m,
        mtp,
        slot_row,
        pass.base_pos as int,
        pass.rows as int,
        seq,
    ) + seq![
        head_command(
            mtp,
            pass.rows as int,
            if pass.from_trunk {
                RowBuffer::MtpLogits
            } else {
                RowBuffer::MtpLogits2
            },
            m.ids.draft_out as int,
        ),
    ]
}

/// Plan one pass of the draft head under the event values from `seq`.
pub fn mtp_pass(out: &mut Vec<Command>, m: &Model, mtp: &Mtp, pass: &Pass, slot_row: usize, seq: u64)
    requires
        m.plans(pass.rows as nat),
        experts::experts_fit(*m, pass.rows as int),
        pass.base_pos + pass.rows <= m.max_t,
        pass.src_row * (4 * m.cfg.stream()) <= usize::MAX,
        seq + 3 <= u64::MAX,
    ensures
        final(out)@ == old(out)@ + pass_commands(*m, *mtp, *pass, slot_row as int, seq as int),
{
    let ghost start = out@;
    proof {
        hyperconnection::lemma_stream_products(*m, pass.rows as nat);
        if pass.src_row > 0 {
            assert(4 * m.cfg.stream() <= pass.src_row * (4 * m.cfg.stream())) by (nonlinear_arith)
                requires
                    pass.src_row > 0,
            ;
        }
    }
    let (src, off): (Buf, usize) = if pass.from_trunk {
        (Buf::Row(RowBuffer::Hyper), 0)
    } else if pass.src_row == 0 {
        (Buf::Row(RowBuffer::MtpHyper), 0)
    } else {
        (Buf::Row(RowBuffer::MtpHyper), pass.src_row * (4 * m.cfg.hc_hidden()))
    };
    encode_mtp_prelude(out, m, mtp, pass.rows, m.ids.draft_in, src, off);
    let ghost s1 = prelude_commands(*m, *mtp, pass.rows as int, m.ids.draft_in as int, src, off);
    encode_block(
        out,
        m,
        &mtp.layer,
        slot_row,
        pass.base_pos,
        pass.rows,
        0,
        Buf::Row(RowBuffer::MtpHyper),
        None,
        None,
        seq,
    );
    let ghost x2 = head_block(*m, *mtp, slot_row as int, pass.base_pos as int, pass.rows as int, seq as int);
    proof {
        launch::lemma_behind(start, s1, x2);
    }
    let logits: RowBuffer = if pass.from_trunk { RowBuffer::MtpLogits } else { RowBuffer::MtpLogits2 };
    out.push(
        Command::Head {
            mixer: mtp.mixer,
            rows: pass.rows,
            hyper: Buf::Row(RowBuffer::MtpHyper),
            offset: 0,
            pending: Some(Buf::Row(RowBuffer::MoeOut)),
            logits: Buf::Row(logits),
            ids_out: m.ids.draft_out,
        },
    );
    proof {
        let x3 = seq![head_command(*mtp, pass.rows as int, logits, m.ids.draft_out as int)];
        assert(out@ =~= (start + (s1 + x2)) + x3);
        launch::lemma_behind(start, s1 + x2, x3);
    }
}

/// Chained pass `c` of a batch behind `n` committed rows at `batch_pos`: the first takes the
/// seed and the fold's last residual row, each later one the choice and the residual of the
/// pass before it.
pub open spec fn chained_commands(m: Model, mtp: Mtp, slot_row: int, batch_pos: int, n: int, c: int, base_seq: int) -> Seq<Command> {
    let ids_in = if c == 0 {
        m.ids.draft_in as int
    } else {
        m.ids.chain + c - 1
    };
    let off = if c == 0 {
        (n - 1) * (4 * m.cfg.stream())
    } else {
        0
    };
    prelude_commands(m, mtp, 1, ids_in, Buf::Row(RowBuffer::MtpHyper), off as usize) + head_block(
        m,
        mtp,
        slot_row,
        batch_pos + n + c,
        1,
        base_seq + 4 * c,
    ) + seq![head_command(mtp, 1, RowBuffer::MtpLogits2, m.ids.chain + c)]
}

/// The first `passes` chained passes in one command list.
pub open spec fn batch_commands(m: Model, mtp: Mtp, slot_row: int, batch_pos: int, n: int, passes: int, base_seq: int) -> Seq<Command>
    decreases passes,
{
    if passes <= 0 {
        Seq::empty()
    } else {
        batch_commands(m, mtp, slot_row, batch_pos, n, passes - 1, base_seq) + chained_commands(
            m,
            mtp,
            slot_row,
            batch_pos,
            n,
            passes - 1,
            base_seq,
        )
    }
}

/// Plan `n_passes` chained single-row passes in one command list. Every pass's token is the
/// choice of the pass before it, which stays on the device.
pub fn mtp_batch_pass(
    out: &mut Vec<Command>,
    m: &Model,
    mtp: &Mtp,
    slot_row: usize,
    batch_pos: usize,
    n: usize,
    n_passes: usize,
    max_rows: usize,
    base_seq: u64,
) -> (r: Result<(), DraftError>)
    requires
        m.plans(1),
        experts::experts_fit(*m, 1),
        n >= 1,
        max_rows >= 1,
        batch_pos + n + max_rows <= usize::MAX,
        (n - 1) * (4 * m.cfg.stream()) <= usize::MAX,
        m.ids.chain + max_rows <= usize::MAX,
        base_seq + 4 * max_rows <= u64::MAX,
    ensures
        match r {
            Ok(()) => {
                &&& 1 <= n_passes < max_rows
                &&& batch_pos + n + n_passes <= m.max_t
                &&& final(out)@ == old(out)@ + batch_commands(
                    *m,
                    *mtp,
                    slot_row as int,
                    batch_pos as int,
                    n as int,
                    n_passes as int,
                    base_seq as int,
                )
            },
            Err(DraftError::Passes { most }) => !(1 <= n_passes < max_rows) && most == max_rows - 1 && final(out)@ == old(
                out,
            )@,
            Err(e) => {
                &&& e == DraftError::Capacity
                &&& 1 <= n_passes < max_rows
                &&& batch_pos + n + n_passes > m.max_t
                &&& final(out)@ == old(out)@ + batch_commands(
                    *m,
                    *mtp,
                    slot_row as int,
                    batch_pos as int,
                    n as int,
                    m.max_t - batch_pos - n,
                    base_seq as int,
                )
            },
        },
{
    let ghost start = out@;
    if !(1 <= n_passes && n_passes <= max_rows - 1) {
        return Err(DraftError::Passes { most: max_rows - 1 });
    }
    proof {
        hyperconnection::lemma_stream_products(*m, 1);
    }
    let mut c: usize = 0;
    assert(start + Seq::<Command>::empty() =~= start);
    while c < n_passes
        invariant
            start == old(out)@,
            c <= n_passes < max_rows,
            n >= 1,
            m.plans(1),
            experts::experts_fit(*m, 1),
            batch_pos + n + max_rows <= usize::MAX,
            (n - 1) * (4 * m.cfg.stream()) <= usize::MAX,
            4 * m.cfg.stream() <= usize::MAX,
            m.ids.chain + max_rows <= usize::MAX,
            base_seq + 4 * max_rows <= u64::MAX,
            c > 0 ==> batch_pos + n + c <= m.max_t,
            out@ == start + batch_commands(
                *m,
                *mtp,
                slot_row as int,
                batch_pos as int,
                n as int,
                c as int,
                base_seq as int,
            ),
        decreases n_passes - c,
    {
        let ids_in: usize = if c == 0 { m.ids.draft_in } else { m.ids.chain + c - 1 };
        let base_pos: usize = batch_pos + n + c;
        if base_pos >= m.max_t {
            proof {
                let fit = m.max_t - batch_pos - n;
                assert(c == 0 || c == fit);
                assert(fit <= 0 ==> batch_commands(
                    *m,
                    *mtp,
                    slot_row as int,
                    batch_pos as int,
                    n as int,
                    fit,
                    base_seq as int,
                ) == Seq::<Command>::empty());
            }
            return Err(DraftError::Capacity);
        }
        let residual: usize = if c == 0 { (n - 1) * (4 * m.cfg.hc_hidden()) } else { 0 };
        let seq: u64 = base_seq + 4 * c as u64;
        let ghost before = out@;
        encode_mtp_prelude(out, m, mtp, 1, ids_in, Buf::Row(RowBuffer::MtpHyper), residual);
        let ghost s1 = prelude_commands(*m, *mtp, 1, ids_in as int, Buf::Row(RowBuffer::MtpHyper), residual);
        encode_block(
            out,
            m,
            &mtp.layer,
            slot_row,
            base_pos,
            1,
            0,
            Buf::Row(RowBuffer::MtpHyper),
            None,
            None,
            seq,
        );
        let ghost x2 = head_block(*m, *mtp, slot_row as int, base_pos as int, 1, seq as int);
        out.push(
            Command::Head {
                mixer: mtp.mixer,
                rows: 1,
                hyper: Buf::Row(RowBuffer::MtpHyper),
                offset: 0,
                pending: Some(Buf::Row(RowBuffer::MoeOut)),
                logits: Buf::Row(RowBuffer::MtpLogits2),
                ids_out: m.ids.chain + c,
            },
        );
        proof {
            launch::lemma_behind(before, s1, x2);
            let x3 = seq![head_command(*mtp, 1, RowBuffer::MtpLogits2, m.ids.chain + c)];
            assert(out@ =~= (before + (s1 + x2)) + x3);
            launch::lemma_behind(before, s1 + x2, x3);
            let done = batch_commands(
                *m,
                *mtp,
                slot_row as int,
                batch_pos as int,
                n as int,
                c as int,
                base_seq as int,
            );
            launch::lemma_behind(start, done, (s1 + x2) + x3);
        }
        c = c + 1;
    }
    Ok(())
}

// ---- drafting after a commit ----
/// How drafts are made after a commit.
#[derive(Debug, Clone, Copy, PartialEq, Eq, Structural)]
pub enum DraftPlan {
    /// The trunk step ran the head already: its row `row` holds the first draft, which
    /// counts when `keep` is set, and `chained` passes follow in one batch.
    Folded { row: usize, keep: bool, chained: usize },
    /// The head runs over the committed rows and then over single rows, one pass each.
    Passes { count: usize },
}

/// Check that drafting continues where the head's cache ends, and choose how.
pub fn mtp_draft(
    next: usize,
    chain: usize,
    folded: bool,
    batch_pos: usize,
    batch_nb: usize,
    mtp_len: usize,
) -> (r: Result<DraftPlan, DraftError>)
    ensures
        r == if next < 1 || next > batch_nb {
            Err::<DraftPlan, DraftError>(DraftError::Rows)
        } else if mtp_len != batch_pos {
            Err(DraftError::OutOfStep { cached: mtp_len, batch: batch_pos })
        } else if folded {
            Ok(
                DraftPlan::Folded {
                    row: (next - 1) as usize,
                    keep: chain > 0,
                    chained: if chain >= 2 {
                        (chain - 1) as usize
                    } else {
                        0
                    },
                },
            )
        } else {
            Ok(
                DraftPlan::Passes {
                    count: if chain < 1 {
                        1
                    } else {
                        chain
                    },
                },
            )
        },
{
    if next < 1 || next > batch_nb {
        return Err(DraftError::Rows);
    }
    if mtp_len != batch_pos {
        return Err(DraftError::OutOfStep { cached: mtp_len, batch: batch_pos });
    }
    if folded {
        Ok(DraftPlan::Folded { row: next - 1, keep: chain > 0, chained: if chain >= 2 { chain - 1 } else { 0 } })
    } else {
        Ok(DraftPlan::Passes { count: if chain < 1 { 1 } else { chain } })
    }
}

/// Pass `c` of an unfolded draft over `n` committed rows.
pub open spec fn unfolded_pass(batch_pos: int, n: int, c: int) -> Pass {
    if c == 0 {
        Pass { rows: n as usize, base_pos: batch_pos as usize, from_trunk: true, src_row: 0 }
    } else {
        Pass {
            rows: 1,
            base_pos: (batch_pos + n - 1 + c) as usize,
            from_trunk: false,
            src_row: if c == 1 {
                (n - 1) as usize
            } else {
                0
            },
        }
    }
}

/// The pass `c` of an unfolded draft, if the context holds its rows.
pub fn draft_pass(batch_pos: usize, n: usize, c: usize, max_t: usize) -> (r: Result<Pass, DraftError>)
    requires
        n >= 1,
        batch_pos + n + c <= usize::MAX,
    ensures
        ({
            let pass = unfolded_pass(batch_pos as int, n as int, c as int);
            r == if pass.base_pos + pass.rows <= max_t {
                Ok(pass)
            } else {
                Err::<Pass, DraftError>(DraftError::Capacity)
            }
        }),
{
    let pass: Pass = if c == 0 {
        Pass { rows: n, base_pos: batch_pos, from_trunk: true, src_row: 0 }
    } else {
        Pass { rows: 1, base_pos: batch_pos + n - 1 + c, from_trunk: false, src_row: if c == 1 { n - 1 } else { 0 } }
    };
    if pass.base_pos + pass.rows <= max_t {
        Ok(pass)
    } else {
        Err(DraftError::Capacity)
    }
}

/// Chained passes visit the positions behind the committed rows one after the other,
/// whether they run alone or in one batch.
pub proof fn law_chained_positions(batch_pos: int, n: int, c: int)
    requires
        batch_pos >= 0,
        n >= 1,
        c >= 0,
        batch_pos + n + c + 1 <= usize::MAX,
    ensures
        unfolded_pass(batch_pos, n, c + 1).base_pos == batch_pos + n + c,
        unfolded_pass(batch_pos, n, 0).base_pos + unfolded_pass(batch_pos, n, 0).rows == batch_pos + n,
{
}

} // verus!
