//! What optional research dumps hold.

use crate::text;
use crate::text::decimal;
use vstd::prelude::*;
use vstd::string::*;
use vstd::utf8::*;

verus! {

/// One block of a step: the bits of the router's input, and the experts that it chose.
#[derive(Debug)]
pub struct BlockState {
    pub input: Vec<u32>,
    pub experts: Vec<u32>,
}

/// A number's bytes, the least significant first.
pub open spec fn le_bytes(v: u32) -> Seq<u8> {
    seq![
        (v % 256) as u8,
        (v / 256 % 256) as u8,
        (v / 65536 % 256) as u8,
        (v / 16777216) as u8,
    ]
}

/// The bytes of the first numbers, one behind the other.
pub open spec fn list_bytes(list: Seq<u32>) -> Seq<u8>
    decreases list.len(),
{
    if list.len() == 0 {
        Seq::empty()
    } else {
        list_bytes(list.drop_last()) + le_bytes(list.last())
    }
}

/// The bytes of a step's blocks.
pub open spec fn block_bytes(blocks: Seq<BlockState>) -> Seq<u8>
    decreases blocks.len(),
{
    if blocks.len() == 0 {
        Seq::empty()
    } else {
        block_bytes(blocks.drop_last()) + list_bytes(blocks.last().input@) + list_bytes(blocks.last().experts@)
    }
}

/// The bytes of steps, each with the number of its blocks before them.
pub open spec fn step_bytes(steps: Seq<Vec<BlockState>>) -> Seq<u8>
    decreases steps.len(),
{
    if steps.len() == 0 {
        Seq::empty()
    } else {
        step_bytes(steps.drop_last()) + le_bytes(steps.last()@.len() as u32) + block_bytes(steps.last()@)
    }
}

/// The first block of the first step, where there is one.
pub open spec fn first_block(steps: Seq<Vec<BlockState>>) -> Option<BlockState> {
    if steps.len() > 0 && steps[0]@.len() > 0 {
        Some(steps[0]@[0])
    } else {
        None
    }
}

/// The line before the bytes.
pub open spec fn dump_header(steps: Seq<Vec<BlockState>>) -> Seq<char> {
    let blocks = if steps.len() > 0 {
        steps[0]@.len()
    } else {
        0
    };
    let hidden = match first_block(steps) {
        Some(b) => b.input@.len(),
        None => 0,
    };
    let k = match first_block(steps) {
        Some(b) => b.experts@.len(),
        None => 0,
    };
    "{\"format\":2,\"steps\":"@ + text::decimal_of(steps.len()) + ",\"blocks\":"@ + text::decimal_of(blocks)
        + ",\"hidden\":"@ + text::decimal_of(hidden) + ",\"k\":"@ + text::decimal_of(k) + "}\n"@
}

fn push_number(out: &mut Vec<u8>, v: u32)
    ensures
        final(out)@ == old(out)@ + le_bytes(v),
{
    out.push((v % 256) as u8);
    out.push((v / 256 % 256) as u8);
    out.push((v / 65536 % 256) as u8);
    out.push((v / 16777216) as u8);
    assert(out@ =~= old(out)@ + le_bytes(v));
}

fn push_list(out: &mut Vec<u8>, list: &Vec<u32>)
    ensures
        final(out)@ == old(out)@ + list_bytes(list@),
{
    let ghost start = out@;
    let mut i: usize = 0;
    assert(out@ =~= start + list_bytes(list@.take(0)));
    while i < list.len()
        invariant
            i <= list@.len(),
            out@ == start + list_bytes(list@.take(i as int)),
        decreases list@.len() - i,
    {
        push_number(out, list[i]);
        assert(list@.take(i + 1).drop_last() =~= list@.take(i as int));
        assert(out@ =~= start + list_bytes(list@.take(i + 1)));
        i = i + 1;
    }
    assert(list@.take(i as int) =~= list@);
}

fn push_blocks(out: &mut Vec<u8>, blocks: &Vec<BlockState>)
    ensures
        final(out)@ == old(out)@ + block_bytes(blocks@),
{
    let ghost start = out@;
    let mut i: usize = 0;
    assert(out@ =~= start + block_bytes(blocks@.take(0)));
    while i < blocks.len()
        invariant
            i <= blocks@.len(),
            out@ == start + block_bytes(blocks@.take(i as int)),
        decreases blocks@.len() - i,
    {
        push_list(out, &blocks[i].input);
        push_list(out, &blocks[i].experts);
        assert(blocks@.take(i + 1).drop_last() =~= blocks@.take(i as int));
        assert(out@ =~= start + block_bytes(blocks@.take(i + 1)));
        i = i + 1;
    }
    assert(blocks@.take(i as int) =~= blocks@);
}

/// The dump of router states: a line that tells the sizes, then the steps.
pub fn state_dump(steps: &Vec<Vec<BlockState>>) -> (r: Vec<u8>)
    requires
        forall|i: int| 0 <= i < steps@.len() ==> (#[trigger] steps@[i])@.len() <= u32::MAX,
    ensures
        r@ == encode_utf8(dump_header(steps@)) + step_bytes(steps@),
{
    let blocks: usize = if steps.len() > 0 {
        steps[0].len()
    } else {
        0
    };
    let (hidden, k): (usize, usize) = if steps.len() > 0 && steps[0].len() > 0 {
        (steps[0][0].input.len(), steps[0][0].experts.len())
    } else {
        (0, 0)
    };
    let mut header: String = "{\"format\":2,\"steps\":".to_owned();
    header.append(decimal(steps.len() as u64).as_str());
    header.append(",\"blocks\":");
    header.append(decimal(blocks as u64).as_str());
    header.append(",\"hidden\":");
    header.append(decimal(hidden as u64).as_str());
    header.append(",\"k\":");
    header.append(decimal(k as u64).as_str());
    header.append("}\n");
    let mut out: Vec<u8> = Vec::new();
    out.extend_from_slice(header.as_str().as_bytes());
    let ghost start = out@;
    assert(start =~= encode_utf8(dump_header(steps@)));
    let mut i: usize = 0;
    assert(out@ =~= start + step_bytes(steps@.take(0)));
    while i < steps.len()
        invariant
            i <= steps@.len(),
            forall|i: int| 0 <= i < steps@.len() ==> (#[trigger] steps@[i])@.len() <= u32::MAX,
            out@ == start + step_bytes(steps@.take(i as int)),
        decreases steps@.len() - i,
    {
        push_number(&mut out, steps[i].len() as u32);
        push_blocks(&mut out, &steps[i]);
        assert(steps@.take(i + 1).drop_last() =~= steps@.take(i as int));
        assert(out@ =~= start + step_bytes(steps@.take(i + 1)));
        i = i + 1;
    }
    assert(steps@.take(i as int) =~= steps@);
    out
}

/// Whether a row's mask selects a block.
pub open spec fn selects(mask: Seq<u32>, base: int, block: int) -> bool {
    (mask[base + block / 32] >> ((block % 32) as u32)) & 1u32 == 1u32
}

/// The blocks that a row's mask selects among the first.
pub open spec fn selected_blocks(mask: Seq<u32>, base: int, n: int) -> Seq<u32>
    decreases n,
{
    if n <= 0 {
        Seq::empty()
    } else if selects(mask, base, n - 1) {
        selected_blocks(mask, base, n - 1).push((n - 1) as u32)
    } else {
        selected_blocks(mask, base, n - 1)
    }
}

/// The blocks that a row of a mask selects.
pub fn engine_blocks(mask: &[u32], row: usize, words: usize, max_blocks: usize) -> (r: Vec<u32>)
    requires
        max_blocks <= u32::MAX,
        max_blocks <= 32 * words,
        (row + 1) * words <= mask@.len(),
    ensures
        r@ == selected_blocks(mask@, row * words, max_blocks as int),
{
    let whole: usize = mask.len();
    assert(row * words + words <= whole) by (nonlinear_arith)
        requires
            (row + 1) * words <= whole,
    ;
    assert(0 <= row * words) by (nonlinear_arith);
    let base: usize = row * words;
    let mut out: Vec<u32> = Vec::new();
    let mut j: usize = 0;
    while j < max_blocks
        invariant
            j <= max_blocks,
            max_blocks <= u32::MAX,
            max_blocks <= 32 * words,
            base == row * words,
            base + words <= mask@.len(),
            mask@.len() == whole,
            out@ == selected_blocks(mask@, base as int, j as int),
        decreases max_blocks - j,
    {
        let word: u32 = mask[base + j / 32];
        let bit: u32 = (j % 32) as u32;
        if (word >> bit) & 1u32 == 1u32 {
            out.push(j as u32);
        }
        j = j + 1;
    }
    out
}

/// The visible tokens of a row, given how many each row has.
pub fn row_visible(visible: &[u32], counts: &[u32], row: usize, stride: usize) -> (r: Vec<u32>)
    requires
        row < counts@.len(),
        (row + 1) * stride <= visible@.len(),
        counts@[row as int] <= stride,
    ensures
        r@ == visible@.subrange(row * stride, row * stride + counts@[row as int]),
{
    let whole: usize = visible.len();
    assert(row * stride + stride <= whole) by (nonlinear_arith)
        requires
            (row + 1) * stride <= whole,
    ;
    assert(0 <= row * stride) by (nonlinear_arith);
    let base: usize = row * stride;
    let n: usize = counts[row] as usize;
    let mut out: Vec<u32> = Vec::new();
    out.extend_from_slice(vstd::slice::slice_subrange(visible, base, base + n));
    assert(out@ =~= visible@.subrange(base as int, base + n));
    out
}

/// The blocks that begin among the first visible tokens.
pub open spec fn starts(visible: Seq<u32>, n: int) -> Seq<u32>
    decreases n,
{
    if n <= 0 {
        Seq::empty()
    } else if visible[n - 1] % 4 == 0 {
        starts(visible, n - 1).push(visible[n - 1] / 4)
    } else {
        starts(visible, n - 1)
    }
}

/// The blocks that begin among visible tokens.
pub fn block_starts(visible: &[u32]) -> (r: Vec<u32>)
    ensures
        r@ == starts(visible@, visible@.len() as int),
{
    let mut out: Vec<u32> = Vec::new();
    let mut i: usize = 0;
    while i < visible.len()
        invariant
            i <= visible@.len(),
            out@ == starts(visible@, i as int),
        decreases visible@.len() - i,
    {
        if visible[i] % 4 == 0 {
            out.push(visible[i] / 4);
        }
        i = i + 1;
    }
    out
}

/// The last eight of a list.
pub fn last_eight(list: &Vec<u32>) -> (r: Vec<u32>)
    ensures
        r@ == if list@.len() > 8 {
            list@.skip(list@.len() - 8)
        } else {
            list@
        },
{
    let from: usize = if list.len() > 8 {
        list.len() - 8
    } else {
        0
    };
    let mut out: Vec<u32> = Vec::new();
    out.extend_from_slice(vstd::slice::slice_subrange(list.as_slice(), from, list.len()));
    assert(out@ =~= list@.skip(from as int));
    out
}

/// Whether a chunk's attention selection is worth showing: it ends the prompt, and the prompt
/// is longer than what every row sees.
pub fn shows_selection(pos: usize, rows: usize, prompt_tokens: usize, budget: usize, ratio: usize) -> (r: bool)
    requires
        pos + rows <= usize::MAX,
        budget + ratio <= usize::MAX,
    ensures
        r == (pos + rows == prompt_tokens && prompt_tokens > budget + ratio),
{
    pos + rows == prompt_tokens && prompt_tokens > budget + ratio
}

proof fn lemma_list_length(list: Seq<u32>)
    ensures
        list_bytes(list).len() == 4 * list.len(),
    decreases list.len(),
{
    if list.len() > 0 {
        lemma_list_length(list.drop_last());
    }
}

/// The dump of blocks takes four bytes for every number that they hold.
pub proof fn law_dump_length(blocks: Seq<BlockState>, hidden: nat, k: nat)
    requires
        forall|i: int|
            0 <= i < blocks.len() ==> (#[trigger] blocks[i]).input@.len() == hidden && blocks[i].experts@.len() == k,
    ensures
        block_bytes(blocks).len() == 4 * blocks.len() * (hidden + k),
    decreases blocks.len(),
{
    if blocks.len() > 0 {
        let shorter = blocks.drop_last();
        assert forall|i: int| 0 <= i < shorter.len() implies (#[trigger] shorter[i]).input@.len() == hidden
            && shorter[i].experts@.len() == k by {
            assert(blocks[i] == shorter[i]);
        }
        law_dump_length(shorter, hidden, k);
        assert(blocks[blocks.len() - 1].input@.len() == hidden);
        lemma_list_length(blocks.last().input@);
        lemma_list_length(blocks.last().experts@);
        let n = shorter.len();
        let m = blocks.len();
        assert(4 * m * (hidden + k) == 4 * n * (hidden + k) + 4 * hidden + 4 * k) by (nonlinear_arith)
            requires
                m == n + 1,
        ;
    } else {
        let m = blocks.len();
        assert(4 * m * (hidden + k) == 0) by (nonlinear_arith)
            requires
                m == 0,
        ;
    }
}

} // verus!
