use cherenkov::json::parse;
use cherenkov::number::{Real32, Real64};
use cherenkov::qwen4_exp::config::{text_config, ModelConfigError, Qwen4ExpConfig, RopeParams};
use cherenkov::qwen4_exp::gpu::attention::attention_b;
use cherenkov::qwen4_exp::gpu::block::encode_block;
use cherenkov::qwen4_exp::gpu::deltanet::deltanet_b;
use cherenkov::qwen4_exp::gpu::experts::{experts_b, router_b};
use cherenkov::qwen4_exp::gpu::hyperconnection::{hc_read_b, inject_b};
use cherenkov::qwen4_exp::gpu::launch::{
    Arg, Buf, Command, Event, Figures, Grid, Hc, Launch, Pipe, RowBuffer, Stream, Q,
};
use cherenkov::qwen4_exp::gpu::model::{Attn, Delta, IdSlots, Layer, Mix, Model, Moe, Mtp, Ple, RecordLayout, Skips};
use cherenkov::qwen4_exp::gpu::mtp::{draft_pass, mtp_batch_pass, mtp_draft, mtp_pass, DraftError, DraftPlan, Pass};
use cherenkov::qwen4_exp::gpu::prefill::allocation::{
    chunk_scratch, prefill_rows_fit, rows_fit, scratch, scratch_available, scratch_buffer, scratch_bytes, scratch_rows,
    scratch_serves, Scratch, ScratchBuffer, ScratchError,
};
use cherenkov::qwen4_exp::gpu::prefill::attention::pf_attention;
use cherenkov::qwen4_exp::gpu::prefill::chunk::{draft_tokens, prefill_chunk, ChunkError, Sequence, Stage};
use cherenkov::qwen4_exp::gpu::prefill::deltanet::pf_deltanet;
use cherenkov::qwen4_exp::gpu::prefill::experts::{
    prepare_expert_jobs, read_expert_batch, ring_wait, ExpertSource, GROUP, RING,
};
use cherenkov::qwen4_exp::gpu::prefill::run::ChunkRun;
use cherenkov::qwen4_exp::gpu::prefill::stats::{BlockKind, BlockWork, PrefillStats};
use cherenkov::qwen4_exp::gpu::prefill::ple::{gather_rows, pf_ple, PleError};
use cherenkov::qwen4_exp::gpu::prefill::stream::{batch_count, pf_experts};
use cherenkov::qwen4_exp::gpu::residency::set::Residency;
use cherenkov::qwen4_exp::gpu::residency::Pool;

fn number(x: f32) -> Real32 {
    Real32 { bits: x.to_bits() }
}

fn config() -> Qwen4ExpConfig {
    Qwen4ExpConfig {
        hidden_size: 256,
        num_hidden_layers: 2,
        layer_types: vec!["linear_attention".to_owned(), "full_attention".to_owned()],
        num_attention_heads: 8,
        num_key_value_heads: 2,
        head_dim: 64,
        linear_num_key_heads: 4,
        linear_num_value_heads: 8,
        linear_key_head_dim: 32,
        linear_value_head_dim: 32,
        linear_conv_kernel_dim: 4,
        rms_norm_eps: Real64 { bits: 1e-6f64.to_bits() },
        vocab_size: 1000,
        partial_rotary_factor: Real64 { bits: 0.5f64.to_bits() },
        rope_parameters: RopeParams { rope_theta: Real64 { bits: 10000f64.to_bits() } },
        hc_count: 4,
        hc_lowrank: 32,
        num_experts: 16,
        num_experts_per_tok: 2,
        moe_intermediate_size: 64,
        shared_expert_intermediate_size: 64,
        norm_topk_prob: true,
        ple_layer_ids: vec![2],
        ple_conv_kernel_size: 4,
        ple_embed_dim: 64,
        ngram_size: 3,
        heads_per_ngram: 8,
        indexer_n_heads: 2,
        indexer_kv_heads: 1,
        indexer_head_dim: 32,
        indexer_budget: 64,
        indexer_compress_ratio: 4,
        output_gate_type: "silu".to_owned(),
        eos_token_id: 7,
        mtp_num_hidden_layers: 1,
    }
}

fn q(out: u32, inp: u32) -> Q {
    Q { w: 0, s: 0, b: 0, out, inp }
}

fn hc() -> Hc {
    Hc { norm: 0, down: q(32, 1024), up: q(1024, 32), inject: Some(q(4, 1024)) }
}

fn layout(bits: u32, stride: usize) -> RecordLayout {
    RecordLayout {
        gate_w: 0,
        up_w: 0,
        down_w: 0,
        gate_s: 0,
        gate_b: 0,
        up_s: 0,
        up_b: 0,
        down_s: 0,
        down_b: 0,
        bits,
        stride,
    }
}

fn model() -> Model {
    Model {
        cfg: config(),
        figures: Figures {
            rot: 32,
            theta: number(10000.0),
            eps: number(1e-6),
            scale: number(0.18),
            streams: number(4.0),
            scale_off: 4096,
        },
        max_t: 512,
        attn_max_wg: 16,
        attn_tb: 64,
        ids: IdSlots { chosen: 16, draft_in: 32, draft_out: 48, chain: 64 },
        embed: q(1000, 256),
        lm_head: q(1000, 256),
        final_mixer: hc(),
        inter: 64,
        base_layout: layout(4, 16384),
        low_layout: None,
        skips: Skips { mixer: false, shared: false, experts: false },
    }
}

fn attn() -> Attn {
    Attn { q: q(1024, 256), k: q(128, 256), v: q(128, 256), iqk: q(96, 256), o: q(256, 512), qn: 1, kn: 2, iqn: 3, ikn: 4 }
}

fn delta() -> Delta {
    Delta {
        qkv: q(512, 256),
        z: q(256, 256),
        a: q(8, 256),
        b: q(8, 256),
        o: q(256, 256),
        conv: 1,
        a_log: 2,
        dt_bias: 3,
        norm: 4,
    }
}

fn moe() -> Moe {
    Moe { record_layer: 0, router: 5, sg: q(64, 256), su: q(64, 256), sd: q(256, 64), shared_gate: 6 }
}

fn layer(mix: Mix) -> Layer {
    Layer { attn_hc: hc(), mix, mlp_hc: hc(), moe: moe(), ple: None }
}

fn head() -> Mtp {
    Mtp { enorm: 0, hnorm: 0, fc_e: q(1024, 256), fc_h: q(1024, 1024), layer: layer(Mix::Attn(attn())), mixer: hc() }
}

fn launches(list: &[Command]) -> Vec<Launch> {
    list.iter()
        .filter_map(|c| match c {
            Command::Launch(l) => Some(*l),
            _ => None,
        })
        .collect()
}

fn pipes(list: &[Command]) -> Vec<Pipe> {
    launches(list).iter().map(|l| l.pipe).collect()
}

fn grid_of(list: &[Command], pipe: Pipe) -> (usize, usize) {
    let l = launches(list).into_iter().find(|l| l.pipe == pipe).unwrap();
    match l.grid {
        Grid::Threads(n) | Grid::Groups(n) => (n, l.group),
    }
}

#[test]
fn attention_is_dense_within_the_budget() {
    let mut out = Vec::new();
    attention_b(&mut out, &model(), &attn(), 10, 2);
    assert_eq!(
        pipes(&out),
        vec![
            Pipe::IndexAppend,
            Pipe::IndexBlocks,
            Pipe::QkNormRopeB,
            Pipe::QkNormRopeB,
            Pipe::KvAppendQ8,
            Pipe::AttnPart2Q8,
            Pipe::AttnCombine,
            Pipe::AttnPart2Q8,
            Pipe::AttnCombine,
        ]
    );
    assert_eq!(grid_of(&out, Pipe::IndexBlocks), (1, 32));
    assert_eq!(grid_of(&out, Pipe::KvAppendQ8), (4, 128));
    assert_eq!(grid_of(&out, Pipe::AttnPart2Q8), (2, 128));
    assert_eq!(out.iter().filter(|c| matches!(c, Command::QmvH { .. })).count(), 5);
}

#[test]
fn attention_selects_past_the_budget() {
    let mut out = Vec::new();
    attention_b(&mut out, &model(), &attn(), 400, 1);
    let p = pipes(&out);
    assert!(p.contains(&Pipe::IndexQ) && p.contains(&Pipe::IndexScore) && p.contains(&Pipe::IndexSelect));
    assert!(p.contains(&Pipe::AttnSel) && !p.contains(&Pipe::AttnPart2Q8));
    let l = launches(&out).into_iter().find(|l| l.pipe == Pipe::AttnSel).unwrap();
    match l.args.a4 {
        // 401 tokens: the budget's blocks, and the one behind the last whole block.
        Arg::AttnPart(a) => assert_eq!(a.t_len, 65),
        _ => panic!("no parameters"),
    }
    assert!(matches!(l.args.a7, Arg::Bind(Buf::Row(RowBuffer::Vis), 0)));
}

#[test]
fn delta_layers_scan() {
    let mut out = Vec::new();
    deltanet_b(&mut out, &model(), &delta(), 3, 2);
    assert_eq!(
        pipes(&out),
        vec![Pipe::ConvB, Pipe::DeltaNorms, Pipe::DeltaGates, Pipe::DeltaScan2, Pipe::GateNormSigmoidB]
    );
    assert_eq!(grid_of(&out, Pipe::ConvB), (512, 256));
    assert_eq!(grid_of(&out, Pipe::DeltaNorms), (3, 128));
    assert_eq!(grid_of(&out, Pipe::DeltaGates), (24, 96));
    assert_eq!(grid_of(&out, Pipe::DeltaScan2), (64, 128));
}

#[test]
fn experts_run_in_four_stages() {
    let mut out = Vec::new();
    experts_b(&mut out, &model(), &moe(), 1, 2, 0);
    assert_eq!(
        pipes(&out),
        vec![Pipe::MoeGateUpB(2), Pipe::MoeActB, Pipe::MoeDownB(2), Pipe::MoeCombineB]
    );
    assert_eq!(grid_of(&out, Pipe::MoeGateUpB(2)), (160, 128));
    assert_eq!(grid_of(&out, Pipe::MoeActB), (320, 256));
    assert_eq!(grid_of(&out, Pipe::MoeDownB(2)), (160, 128));
    let mut m = model();
    m.skips.experts = true;
    let mut none = Vec::new();
    experts_b(&mut none, &m, &moe(), 1, 2, 0);
    assert!(matches!(none[..], [Command::Zero { words: 512, .. }]));
    let mut nothing = Vec::new();
    experts_b(&mut nothing, &m, &moe(), 1, 2, 1);
    assert!(nothing.is_empty());
}

#[test]
fn the_router_scores_every_expert() {
    let mut out = Vec::new();
    let b = |x| Buf::Row(x);
    router_b(&mut out, &model(), &moe(), 3, b(RowBuffer::E), b(RowBuffer::Router), b(RowBuffer::TopkIdx), b(RowBuffer::TopkW), 2);
    assert_eq!(pipes(&out), vec![Pipe::Bf16MatvecB, Pipe::TopkSoftmaxB]);
    assert_eq!(grid_of(&out, Pipe::Bf16MatvecB), (12, 128));
    assert_eq!(grid_of(&out, Pipe::TopkSoftmaxB), (3, 32));
}

#[test]
fn the_residual_is_read_through_its_gates() {
    let mut out = Vec::new();
    let hyper = Buf::Row(RowBuffer::Hyper);
    hc_read_b(&mut out, &model(), &hc(), 2, hyper, 0, None, Stream::Block, true);
    assert_eq!(pipes(&out), vec![Pipe::NormPrepB, Pipe::QmvSiluB(2), Pipe::HcMixB]);
    assert_eq!(grid_of(&out, Pipe::NormPrepB), (8, 256));
    assert_eq!(grid_of(&out, Pipe::QmvSiluB(2)), (8, 128));
    assert_eq!(grid_of(&out, Pipe::HcMixB), (512, 256));
    let mut without = Vec::new();
    hc_read_b(&mut without, &model(), &hc(), 2, hyper, 0, None, Stream::Block, false);
    assert_eq!(without.len() + 1, out.len());
    let mut inject = Vec::new();
    inject_b(&mut inject, &model(), hyper, Buf::Row(RowBuffer::MixOut), 2);
    assert_eq!(grid_of(&inject, Pipe::InjectB), (2048, 256));
}

#[test]
fn a_block_signals_and_waits_in_order() {
    let mut out = Vec::new();
    let l = layer(Mix::Delta(delta()));
    encode_block(&mut out, &model(), &l, 0, 4, 1, 0, Buf::Row(RowBuffer::Hyper), None, None, 40);
    let events: Vec<_> = out
        .iter()
        .filter_map(|c| match c {
            Command::Signal(e, n) => Some((true, *e, *n)),
            Command::Wait(e, n) => Some((false, *e, *n)),
            _ => None,
        })
        .collect();
    assert_eq!(
        events,
        vec![
            (true, Event::Main, 40),
            (false, Event::Main, 41),
            (true, Event::Resident, 42),
            (false, Event::Main, 43),
        ]
    );
}

#[test]
fn drafts_are_planned() {
    assert_eq!(mtp_draft(2, 3, true, 10, 2, 10), Ok(DraftPlan::Folded { row: 1, keep: true, chained: 2 }));
    assert_eq!(mtp_draft(2, 0, true, 10, 2, 10), Ok(DraftPlan::Folded { row: 1, keep: false, chained: 0 }));
    assert_eq!(mtp_draft(2, 0, false, 10, 2, 10), Ok(DraftPlan::Passes { count: 1 }));
    assert_eq!(mtp_draft(3, 1, false, 10, 2, 10), Err(DraftError::Rows));
    assert_eq!(mtp_draft(1, 1, false, 10, 2, 9), Err(DraftError::OutOfStep { cached: 9, batch: 10 }));
    let first = draft_pass(10, 2, 0, 100).unwrap();
    assert_eq!((first.rows, first.base_pos, first.from_trunk, first.src_row), (2, 10, true, 0));
    let second = draft_pass(10, 2, 1, 100).unwrap();
    assert_eq!((second.rows, second.base_pos, second.from_trunk, second.src_row), (1, 12, false, 1));
    assert_eq!(draft_pass(99, 2, 0, 100).err(), Some(DraftError::Capacity));
}

#[test]
fn chained_passes_share_one_buffer() {
    let mut out = Vec::new();
    assert_eq!(mtp_batch_pass(&mut out, &model(), &head(), 2, 10, 1, 3, 4, 100), Ok(()));
    let signals: Vec<_> = out
        .iter()
        .filter_map(|c| match c {
            Command::Signal(Event::Main, n) => Some(*n),
            _ => None,
        })
        .collect();
    assert!(signals.contains(&100) && signals.contains(&104) && signals.contains(&108));
    assert_eq!(out.iter().filter(|c| matches!(c, Command::Head { .. })).count(), 3);
    let mut none = Vec::new();
    assert_eq!(
        mtp_batch_pass(&mut none, &model(), &head(), 2, 10, 1, 4, 4, 100),
        Err(DraftError::Passes { most: 3 })
    );
    let mut one = Vec::new();
    let pass = Pass { rows: 2, base_pos: 10, from_trunk: true, src_row: 0 };
    mtp_pass(&mut one, &model(), &head(), &pass, 2, 100);
    assert!(pipes(&one).contains(&Pipe::MtpFold));
}

#[test]
fn scratch_grows_with_its_rows() {
    let c = config();
    assert_eq!((scratch_rows(1), scratch_rows(64), scratch_rows(65)), (64, 96, 128));
    let bytes = |rows| scratch_bytes(&c, 512, rows, false).unwrap();
    assert!(bytes(64) < bytes(128) && bytes(64) == bytes(33));
    let whole: usize = scratch(false).iter().map(|b| scratch_buffer(&c, 512, 64, *b).div_ceil(16384) * 16384).sum();
    assert_eq!(bytes(64), whole);
    assert_eq!(scratch_buffer(&c, 512, 64, ScratchBuffer::Hyper), 96 * 4 * 1024);
    assert!(scratch(true).len() == scratch(false).len() + 1);
}

#[test]
fn rows_fill_what_is_available() {
    let c = config();
    let all = rows_fit(&c, 512, usize::MAX, false).unwrap();
    let least = scratch_bytes(&c, 512, 64, false).unwrap();
    let rows = rows_fit(&c, 512, least, false).unwrap();
    assert!(rows <= all && scratch_bytes(&c, 512, rows, false).unwrap() <= least);
    assert_eq!(rows_fit(&c, 512, 0, false).err(), Some(ScratchError::Insufficient));
    assert_eq!(scratch_available(Some(100), 80, 30, Some(10)), 80);
    assert_eq!(prefill_rows_fit(&c, 512, Some(least + 7), 0, 9, Some(2), false).ok(), Some(rows));
    assert!(prefill_rows_fit(&c, 512, None, least, 1, None, false).unwrap_or(0) < rows);
    assert_eq!(scratch_available(None, 80, 90, None), 0);
    assert!(scratch_serves(Some(64), false, 64, false) && scratch_serves(Some(64), true, 10, false));
    assert!(!scratch_serves(Some(64), false, 10, true) && !scratch_serves(None, true, 1, false));
}

#[test]
fn chunks_advance_the_sequence() {
    let mut s = Sequence { pos: 0, mtp_len: 0, batch_pos: 0, batch_nb: 0, tokens: vec![] };
    assert_eq!(s.begin_chunk(&[], 10), Err(ChunkError::Empty));
    assert_eq!(s.begin_chunk(&[1; 11], 10), Err(ChunkError::Capacity));
    assert_eq!(s.begin_chunk(&[1, 2, 3], 10), Ok(()));
    assert_eq!(s.tokens, vec![1, 2, 3]);
    s.end_chunk(3, true);
    assert_eq!((s.pos, s.mtp_len), (3, 3));
    assert_eq!(draft_tokens(&[1, 2, 3], Some(9), 7), vec![2, 3, 9]);
    assert_eq!(draft_tokens(&[1, 2, 3], None, 7), vec![2, 3, 7]);
}

#[test]
fn stages_follow_each_other() {
    let mut stage = Stage::Embed;
    let mut seen = Vec::new();
    while stage != Stage::Done {
        seen.push(stage);
        stage = stage.next(2, true);
    }
    assert_eq!(
        seen,
        vec![
            Stage::Embed,
            Stage::Layer(0),
            Stage::Layer(1),
            Stage::Head,
            Stage::DraftInput,
            Stage::DraftLayer,
            Stage::DraftHead,
        ]
    );
    assert_eq!(Stage::Head.next(2, false), Stage::Done);
}

#[test]
fn every_stage_of_a_chunk_is_encoded() {
    let layers = vec![layer(Mix::Delta(delta())), layer(Mix::Attn(attn()))];
    let h = head();
    let mut stage = Stage::Embed;
    while stage != Stage::Done {
        let mut out = Vec::new();
        prefill_chunk(&mut out, &model(), &layers, Some(&h), 0, 96, Scratch { rows: 96, logits: false }, stage);
        assert!(!out.is_empty(), "{stage:?}");
        stage = stage.next(2, true);
    }
    let mut a = Vec::new();
    pf_attention(&mut a, &model(), &attn(), 0, 96);
    assert!(pipes(&a).contains(&Pipe::SoftmaxSel) && pipes(&a).contains(&Pipe::GemmHh));
    let mut d = Vec::new();
    pf_deltanet(&mut d, &model(), &delta(), 96);
    assert!(pipes(&d).contains(&Pipe::DeltaScan2));
}

#[test]
fn prefill_experts_hold_every_route() {
    let mut pool = Pool::Resident(Residency::new(100, 4, 2));
    let idx = [0u32, 2, 2, 3, 0, 2];
    let weights = [0.1f32, 0.2, 0.3, 0.4, 0.5, 0.6].map(number);
    let base = layout(4, 100);
    let jobs = prepare_expert_jobs(&mut pool, &[0, 1, 2, 3], &idx, &weights, 2, 1, 1, &base, &base)
        .unwrap_or_else(|e| panic!("{:?}", e.error));
    assert_eq!(jobs.csr_rows.len(), 6);
    assert_eq!(jobs.csr_w.len(), 6);
    assert_eq!(jobs.jobs.iter().map(|j| j.row_count).sum::<usize>(), 6);
    for j in &jobs.jobs {
        let mut rows = jobs.csr_rows[j.csr_offset..j.csr_offset + j.row_count].to_vec();
        rows.sort_unstable();
        let wanted: Vec<u32> =
            (0..6).filter(|p| idx[*p] as usize == j.expert).map(|p| (p / 2) as u32).collect();
        assert_eq!(rows, wanted);
    }
    let reads = read_expert_batch(&jobs.jobs, &[0, 1, 2, 3], 4096, 100);
    assert_eq!(reads.fetched, reads.to_set.len() + reads.ring4.len() + reads.ring_low.len());
    assert_eq!(reads.bytes, reads.fetched * 100);
    let mut ring: Vec<u32> = jobs
        .jobs
        .iter()
        .filter_map(|j| match j.source {
            ExpertSource::Ring(slot) => Some(slot),
            ExpertSource::Pool { .. } => None,
        })
        .collect();
    ring.dedup();
    assert_eq!(ring, (0..ring.len() as u32).collect::<Vec<_>>());
    let mut out = Vec::new();
    pf_experts(&mut out, &model(), &moe(), 3, &jobs.jobs, 100, 10, 20);
    assert!(pipes(&out).contains(&Pipe::GatherRows) && pipes(&out).contains(&Pipe::ScatterAddRows));
    assert_eq!((batch_count(0), batch_count(1), batch_count(GROUP), batch_count(GROUP + 1)), (0, 1, 1, 2));
}

#[test]
fn ring_slots_are_reused_when_they_are_free() {
    assert_eq!(ring_wait(100, 0), None);
    let turns = RING / GROUP;
    assert!(ring_wait(100, turns - 1).is_none());
    assert!(ring_wait(100, turns).is_some());
    assert!(ring_wait(100, turns) < ring_wait(100, turns + 1));
}

#[test]
fn embedded_rows_are_gathered() {
    let rows = vec![vec![5u64, 6], vec![7, 8]];
    let list = gather_rows(&rows, 64, 256, 32).unwrap();
    assert_eq!(list.iter().map(|g| g.id).collect::<Vec<_>>(), vec![5, 6, 7, 8]);
    assert_eq!(gather_rows(&rows, 512, 256, 32).err(), Some(PleError::TooWide));
    assert_eq!(gather_rows(&rows, 100, 256, 32).err(), Some(PleError::HeadLayout));
    let p = Ple {
        key: q(256, 64),
        value: q(256, 64),
        norm_key: 0,
        norm_query: 0,
        norm_conv: 0,
        conv: 0,
        kernel: 4,
        dilation: 1,
        span: 3,
    };
    let mut out = Vec::new();
    pf_ple(&mut out, &model(), &p, 0, 8);
    assert!(pipes(&out).contains(&Pipe::PleGateB) && pipes(&out).contains(&Pipe::PleConvB));
}

#[test]
fn configurations_are_checked() {
    let c = config();
    assert!(c.check().is_ok());
    assert!(c.is_linear(0) && !c.is_linear(1));
    assert_eq!((c.ple_layer(), c.hc_hidden()), (Some(1), 1024));
    let mut short = config();
    short.layer_types.pop();
    assert!(matches!(short.check(), Err(ModelConfigError::LayerTypes)));
    let mut single = config();
    single.hc_count = 1;
    assert!(matches!(single.check(), Err(ModelConfigError::ResidualStreams)));
}

#[test]
fn text_configurations_are_found() {
    let read = |text: &str| parse(text.as_bytes()).unwrap();
    assert!(matches!(text_config(&read("{}")), Err(ModelConfigError::NoModelType)));
    let other = text_config(&read(r#"{"model_type":"llama"}"#)).err().unwrap();
    assert_eq!(other.message(), "unsupported model_type llama; expected qwen4_exp");
    let part = text_config(&read(
        r#"{"model_type":"qwen4_exp","text_config":{"model_type":"qwen4_exp_text","hidden_size":9}}"#,
    ))
    .unwrap();
    assert_eq!(part.get("hidden_size").unwrap().as_u64(), Some(9));
    assert!(matches!(text_config(&read(r#"{"model_type":"qwen4_exp"}"#)), Err(ModelConfigError::NotTextModel)));
}

fn empty_sequence() -> Sequence {
    Sequence { pos: 0, mtp_len: 0, batch_pos: 0, batch_nb: 0, tokens: Vec::new() }
}

fn start(s: &mut Sequence, tokens: &[u32], max_t: usize, drafts: bool) -> Result<(ChunkRun, bool), ChunkError> {
    s.start_chunk(tokens.to_vec(), None, max_t, 2, drafts, None, false)
}

#[test]
fn a_chunk_runs_from_stage_to_stage() {
    let layers = vec![layer(Mix::Delta(delta())), layer(Mix::Attn(attn()))];
    let h = head();
    let (mut s, mut totals) = (empty_sequence(), PrefillStats::default());
    let (mut run, fresh) = start(&mut s, &[7, 8, 9], 96, true).unwrap();
    assert_eq!((fresh, run.scratch), (true, Scratch { rows: 64, logits: false }));
    let mut planned = Vec::new();
    run.plan(&mut planned, &model(), &layers, Some(&h), s.pos);
    let mut wanted = Vec::new();
    prefill_chunk(&mut wanted, &model(), &layers, Some(&h), 0, 3, run.scratch, Stage::Embed);
    assert_eq!(planned.len(), wanted.len());
    run.embedded();
    let work = BlockWork { fetched: 2, fetched_bytes: 200, wait_ns: 3, block_ns: 5, experts_ns: 7 };
    assert!(run.work.can_hold(BlockKind::Delta, &work));
    run.ran_block(BlockKind::Delta, work);
    run.ran_block(BlockKind::Attention, work);
    assert_eq!(run.stage, Stage::Head);
    assert_eq!(run.chose(50), Some(vec![8, 9, 50]));
    run.embedded();
    run.ran_block(BlockKind::Draft, work);
    run.drafted(60);
    assert_eq!(run.stage, Stage::Done);
    assert!(run.can_finish(&totals, 1000, 10));
    assert_eq!(run.finish(&mut s, &mut totals, 1000, 10), (50, 60));
    assert_eq!((s.pos, s.mtp_len, s.batch_pos, s.batch_nb, s.tokens.clone()), (3, 3, 3, 0, vec![7, 8, 9]));
    assert_eq!((totals.chunks, totals.tokens, totals.ns, totals.ngram_ns), (1, 3, 1000, 10));
    assert_eq!((totals.gpu_delta_ns, totals.gpu_attention_ns, totals.gpu_expert_ns, totals.gpu_mtp_ns), (5, 5, 14, 12));
    assert_eq!(totals.ring_wait_ns, 9);
}

#[test]
fn a_chunk_without_a_head_answers_its_choice_twice() {
    let (mut s, mut totals) = (empty_sequence(), PrefillStats::default());
    let (mut run, _) = start(&mut s, &[1, 2], 96, false).unwrap();
    run.embedded();
    let work = BlockWork { fetched: 0, fetched_bytes: 0, wait_ns: 0, block_ns: 1, experts_ns: 1 };
    run.ran_block(BlockKind::Delta, work);
    run.ran_block(BlockKind::Attention, work);
    assert_eq!(run.chose(33), None);
    assert_eq!((run.stage, run.draft), (Stage::Done, None));
    assert_eq!(run.finish(&mut s, &mut totals, 4, 0), (33, 33));
    assert_eq!((s.pos, s.mtp_len), (2, 0));
}

#[test]
fn a_refused_chunk_leaves_the_sequence() {
    let mut s = Sequence { pos: 2, mtp_len: 1, batch_pos: 1, batch_nb: 4, tokens: vec![5, 6, 7] };
    assert_eq!(start(&mut s, &[], 96, false).err(), Some(ChunkError::Empty));
    assert_eq!(start(&mut s, &[1, 2], 3, false).err(), Some(ChunkError::Capacity));
    assert_eq!((s.pos, s.mtp_len, s.batch_pos, s.batch_nb, s.tokens.clone()), (2, 1, 1, 4, vec![5, 6, 7]));
    let (run, _) = start(&mut s, &[1, 2], 4, false).unwrap();
    assert_eq!((run.stage, s.pos, s.tokens), (Stage::Embed, 2, vec![5, 6, 1, 2]));
}

#[test]
fn a_scratch_is_kept_while_it_serves() {
    let kept = Scratch { rows: 64, logits: true };
    assert_eq!(chunk_scratch(Some(kept), 10, false), (kept, false));
    assert_eq!(chunk_scratch(Some(kept), 10, true), (kept, false));
    assert_eq!(chunk_scratch(Some(kept), 65, false), (Scratch { rows: 128, logits: false }, true));
    let plain = Scratch { rows: 64, logits: false };
    assert_eq!(chunk_scratch(Some(plain), 10, true), (Scratch { rows: 64, logits: true }, true));
    assert_eq!(chunk_scratch(None, 10, false), (Scratch { rows: 64, logits: false }, true));
    // All rows go through the output head where the scratch has room for their logits.
    let layers = vec![layer(Mix::Delta(delta())), layer(Mix::Attn(attn()))];
    let (mut all, mut last) = (Vec::new(), Vec::new());
    prefill_chunk(&mut all, &model(), &layers, None, 0, 10, kept, Stage::Head);
    prefill_chunk(&mut last, &model(), &layers, None, 0, 10, plain, Stage::Head);
    assert!(all.len() > last.len());
}

#[test]
fn scratches_are_whole_pages() {
    let c = config();
    let bytes = |rows: usize, logits: bool| scratch_bytes(&c, 512, rows, logits).unwrap();
    assert_eq!(bytes(1, false) % 16384, 0);
    assert_eq!(bytes(33, false), bytes(64, false));
    assert!(bytes(32, false) < bytes(33, false));
    let logits = scratch_buffer(&c, 512, 64, ScratchBuffer::LogitsAll);
    assert_eq!(bytes(64, true) - bytes(64, false), logits.div_ceil(16384) * 16384);
}
