use cherenkov::number::Real32;
use cherenkov::runner::decode::{Decode, Generator};
use cherenkov::runner::diagnostics::{
    block_starts, engine_blocks, last_eight, row_visible, shows_selection, state_dump, BlockState,
};
use cherenkov::runner::{
    argmax, chatml, check_budget, chunk_len, div_ceil, last_logits_row, prefill_path, rows_max, BudgetError, FinishReason, PrefillPath, PrefillResume,
};

const END: u32 = 50;

/// A toy model: its choice depends on all tokens before.
fn choice(context: &[u32]) -> u32 {
    if context.len() >= 9 {
        return END;
    }
    context.iter().fold(context.len() as u32, |a, t| (a * 7 + t) % 11)
}

fn answers(context: &[u32], rows: &[u32]) -> Vec<u32> {
    let mut all = context.to_vec();
    rows.iter()
        .map(|t| {
            all.push(*t);
            choice(&all)
        })
        .collect()
}

/// Runs the loop with drafts that are right up to `good` of them.
fn decoded(prompt: &[u32], n_draft: usize, good: usize, limit: usize) -> (Vec<u32>, FinishReason) {
    let seed = PrefillResume { next: choice(prompt), drafts: vec![] };
    let mut d = Decode::new(seed, None, n_draft, Some((END, 99)), limit);
    while let Some(rows) = d.begin() {
        let mut context = prompt.to_vec();
        context.extend(&d.tokens[..d.tokens.len() - 1]);
        let result = answers(&context, &rows);
        let settled = d.settle(&rows, &result);
        assert_eq!(settled.next.len(), settled.commit);
        let mut at = context.clone();
        at.extend(&rows[..settled.commit]);
        let token = settled.next[settled.commit - 1];
        at.push(token);
        let mut drafts = Vec::new();
        for i in 0..settled.chain {
            let right = choice(&at);
            let t = if i < good { right } else { 30 };
            drafts.push(t);
            at.push(t);
        }
        d.emit_accepted(&rows, settled.commit, Some(drafts));
        d.advance(token);
    }
    (d.tokens, d.finish_reason.unwrap())
}

#[test]
fn drafting_does_not_change_the_output() {
    for limit in [0, 1, 3, 20] {
        let plain = decoded(&[3, 1], 0, 0, limit);
        for n_draft in 1..4 {
            for good in 0..4 {
                assert_eq!(decoded(&[3, 1], n_draft, good, limit), plain);
            }
        }
    }
    assert_eq!(decoded(&[3, 1], 2, 2, 20).1, FinishReason::Stop);
    assert_eq!(decoded(&[3, 1], 2, 2, 3).1, FinishReason::Length);
    assert_eq!(decoded(&[3, 1], 2, 2, 3).0.len(), 3);
}

#[test]
fn a_refused_draft_shortens_the_chain() {
    let seed = PrefillResume { next: 1, drafts: vec![2, 3] };
    let mut d = Decode::new(seed, None, 2, None, 10);
    let rows = d.begin().unwrap();
    assert_eq!(rows, vec![1, 2, 3]);
    let s = d.settle(&rows, &[2, 8, 9]);
    assert_eq!((s.commit, s.next.clone(), s.chain), (2, vec![2, 8], 1));
    assert_eq!((d.steps, d.accepted), (1, 1));
    d.emit_accepted(&rows, 2, None);
    assert_eq!(d.tokens, vec![1, 2]);
    let t = Decode::new(PrefillResume { next: 1, drafts: vec![] }, Some(5), 0, None, 1);
    assert_eq!(t.cur, 5);
}

#[test]
fn an_accepted_end_is_not_committed() {
    let seed = PrefillResume { next: 1, drafts: vec![END] };
    let mut d = Decode::new(seed, None, 1, Some((END, END)), 10);
    let rows = d.begin().unwrap();
    let s = d.settle(&rows, &[END, 4]);
    assert_eq!((s.commit, s.next.clone()), (1, vec![END]));
    d.emit_accepted(&rows, 1, None);
    d.advance(END);
    assert!(d.is_eos(END) && d.begin().is_none());
    assert_eq!(d.finish_reason, Some(FinishReason::Stop));
}

#[test]
fn the_command_line_stops_at_the_end_of_a_turn() {
    let mut g = Generator::new(PrefillResume { next: 1, drafts: vec![2, END] }, 2, Some((END, END)), 2);
    let rows = g.begin().unwrap();
    let s = g.settle(&rows, &[2, END, 7]);
    assert_eq!(s.commit, 3);
    g.emit_accepted(&rows, s.commit, None, 7);
    assert_eq!((g.out.clone(), g.finish_reason), (vec![1, 2], Some(FinishReason::Stop)));
    assert!(g.begin().is_none());
    let r = g.finish(4);
    assert_eq!((r.tokens, r.prompt_tokens, r.finish_reason), (vec![1, 2], 4, FinishReason::Stop));
}

#[test]
fn budgets_are_checked() {
    assert!(check_budget(4, 4, 2, 10).is_ok());
    assert!(matches!(check_budget(0, 4, 2, 10), Err(BudgetError::EmptyPrompt)));
    assert!(matches!(check_budget(usize::MAX, 1, 0, 10), Err(BudgetError::Overflow)));
    assert_eq!(
        check_budget(5, 4, 2, 10).err().unwrap().message(),
        "prompt (5) + output (4) + draft lookahead (2) needs 11 tokens, exceeding --max-ctx 10"
    );
}

#[test]
fn prompts_are_wrapped_unless_raw() {
    assert_eq!(chatml("hi", true), "hi");
    assert_eq!(
        chatml("hi", false),
        "<|im_start|>user\nhi<|im_end|>\n<|im_start|>assistant\n<think>\n\n</think>\n\n"
    );
    assert_eq!(FinishReason::Stop.name(), "stop");
    assert_eq!(FinishReason::Length.name(), "length");
}

#[test]
fn the_largest_logit_wins() {
    let row = |list: &[f32]| list.iter().map(|x| Real32 { bits: x.to_bits() }).collect::<Vec<_>>();
    assert_eq!(argmax(&row(&[1.0, 5.0, -2.0])), 1);
    assert_eq!(argmax(&row(&[f32::NEG_INFINITY])), 0);
    assert_eq!(argmax(&row(&[2.0, 1.0, 2.0])), 2);
    assert_eq!(argmax(&row(&[-0.0, 0.0, -0.0])), 1);
}

#[test]
fn chunks_are_equal_and_few() {
    assert_eq!((div_ceil(7, 3), div_ceil(6, 3), div_ceil(0, 3)), (3, 2, 0));
    assert_eq!(chunk_len(10, 4), 4);
    assert_eq!(chunk_len(9, 8), 5);
    assert_eq!(chunk_len(3, 100), 3);
}

#[test]
fn prompts_take_the_path_that_suits_them() {
    assert_eq!(prefill_path(true, 1, true, None, None, 1), PrefillPath::Prepared);
    assert_eq!(prefill_path(false, 63, false, None, None, 10), PrefillPath::Rows);
    assert_eq!(prefill_path(false, 64, false, None, None, 10), PrefillPath::Engine { chunk: 10 });
    assert_eq!(prefill_path(false, 64, false, Some(1), Some(7), 10), PrefillPath::Engine { chunk: 7 });
    assert_eq!((rows_max(None, 16), rows_max(Some(3), 16), rows_max(Some(0), 16)), (16, 3, 1));
    assert_eq!(last_logits_row(true, 40, 16), 0);
    assert_eq!(last_logits_row(false, 40, 16), 7);
    assert_eq!(last_logits_row(false, 32, 16), 15);
}

#[test]
fn states_are_dumped() {
    let block = |x: u32| BlockState { input: vec![x, 2], experts: vec![3] };
    let bytes = state_dump(&vec![vec![block(1), block(0x0102_0304)]]);
    let header = b"{\"format\":2,\"steps\":1,\"blocks\":2,\"hidden\":2,\"k\":1}\n";
    assert!(bytes.starts_with(header));
    let body = &bytes[header.len()..];
    assert_eq!(body.len(), 4 + 4 * 2 * (2 + 1));
    let words: Vec<u32> = body.chunks(4).map(|c| u32::from_le_bytes([c[0], c[1], c[2], c[3]])).collect();
    assert_eq!(words, vec![2, 1, 2, 3, 0x0102_0304, 2, 3]);
}

#[test]
fn selections_are_listed() {
    assert_eq!(engine_blocks(&[0, 0b1010, 1], 1, 1, 4), vec![1, 3]);
    assert_eq!(engine_blocks(&[1 << 31, 1], 0, 2, 40), vec![31, 32]);
    assert_eq!(row_visible(&[1, 2, 3, 4, 5, 6], &[0, 2], 1, 3), vec![4, 5]);
    assert_eq!(block_starts(&[0, 1, 2, 3, 8, 9, 12]), vec![0, 2, 3]);
    assert_eq!(last_eight(&(0..10).collect()), vec![2, 3, 4, 5, 6, 7, 8, 9]);
    assert_eq!(last_eight(&vec![1]), vec![1]);
    assert!(shows_selection(90, 10, 100, 90, 4));
    assert!(!shows_selection(90, 10, 101, 90, 4) && !shows_selection(90, 10, 100, 96, 4));
}
