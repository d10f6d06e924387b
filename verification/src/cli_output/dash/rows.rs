//! The cells of the dashboard's rows, with read-volume bars scaled to the current page.

use super::state::{Request, Tab};
use crate::cli_output::report;
use crate::cli_output::stats::StatsView;
use crate::qwen4_exp::gpu::activity::ExpertCounters;
use crate::text;
use crate::text::{decimal, fixed};
use vstd::prelude::*;
use vstd::string::*;

verus! {

pub const BYTES_PER_MB: u128 = 1_000_000;

/// What stands above the rows of a request.
pub open spec fn title_text(request: Request) -> Seq<char> {
    " "@ + (if request.tab == Tab::Experts {
        "Experts"@
    } else {
        "Layers"@
    }) + " / totals / offset "@ + text::decimal_of(request.offset as nat) + " "@
}

pub fn title(request: &Request) -> (r: String)
    ensures
        r@ == title_text(*request),
{
    let mut out: String = " ".to_owned();
    if request.tab == Tab::Experts {
        out.append("Experts");
    } else {
        out.append("Layers");
    }
    out.append(" / totals / offset ");
    out.append(decimal(request.offset as u64).as_str());
    out.append(" ");
    out
}

/// The share of lookups that hit, in percent; nothing is known without a lookup.
pub open spec fn hits_text(c: ExpertCounters) -> Seq<char> {
    if c.cache_hits + c.cache_misses > 0 {
        text::fixed_text(100 * c.cache_hits as nat, (c.cache_hits + c.cache_misses) as nat, 1) + "%"@
    } else {
        "n/a"@
    }
}

fn hits(c: &ExpertCounters) -> (r: String)
    ensures
        r@ == hits_text(*c),
{
    let lookups: u128 = c.cache_hits as u128 + c.cache_misses as u128;
    if lookups > 0 {
        let mut out: String = fixed(100 * c.cache_hits as u128, lookups, false);
        out.append("%");
        out
    } else {
        "n/a".to_owned()
    }
}

/// Bytes in megabytes.
pub open spec fn megabytes_text(bytes: u64) -> Seq<char> {
    text::fixed_text(bytes as nat, BYTES_PER_MB as nat, 1)
}

pub fn megabytes(bytes: u64) -> (r: String)
    ensures
        r@ == megabytes_text(bytes),
{
    fixed(bytes as u128, BYTES_PER_MB, false)
}

/// The cells of a row; where bars are drawn they say how much was read.
pub open spec fn cells_shown(id: usize, c: ExpertCounters, bars: bool) -> Seq<Seq<char>> {
    seq![
        text::decimal_of(id as nat),
        text::decimal_of(c.selected_rows as nat),
        hits_text(c),
        if bars {
            Seq::empty()
        } else {
            megabytes_text(c.read_bytes_requested)
        },
    ]
}

pub fn cells(id: usize, c: &ExpertCounters, bars: bool) -> (r: Vec<String>)
    ensures
        report::texts(r@) == cells_shown(id, *c, bars),
{
    let mut out: Vec<String> = Vec::new();
    out.push(decimal(id as u64));
    out.push(decimal(c.selected_rows));
    out.push(hits(c));
    out.push(
        if bars {
            String::new()
        } else {
            megabytes(c.read_bytes_requested)
        },
    );
    assert(report::texts(out@) =~= cells_shown(id, *c, bars));
    out
}

/// The bytes that a full bar stands for: the most that an entry asked for, and at least one.
pub open spec fn full_bar(entries: Seq<(usize, ExpertCounters)>) -> u64
    decreases entries.len(),
{
    if entries.len() == 0 {
        1
    } else {
        let before = full_bar(entries.drop_last());
        let bytes = entries.last().1.read_bytes_requested;
        if bytes > before {
            bytes
        } else {
            before
        }
    }
}

pub fn largest(rows: &StatsView) -> (r: u64)
    ensures
        r == full_bar(rows.entries()),
{
    let mut most: u64 = 1;
    let count: usize = rows.len();
    let mut i: usize = 0;
    assert(rows.entries().take(0) =~= Seq::empty());
    while i < count
        invariant
            i <= count == rows.entries().len(),
            most == full_bar(rows.entries().take(i as int)),
        decreases count - i,
    {
        assert(rows.entries().take(i + 1).drop_last() =~= rows.entries().take(i as int));
        if let Some((_, counters)) = rows.row(i) {
            if counters.read_bytes_requested > most {
                most = counters.read_bytes_requested;
            }
        }
        i = i + 1;
    }
    assert(rows.entries().take(i as int) =~= rows.entries());
    most
}

/// A full bar is some entry's, or one byte, and no entry's bar is longer.
pub proof fn law_bars_fit(entries: Seq<(usize, ExpertCounters)>)
    ensures
        full_bar(entries) >= 1,
        full_bar(entries) == 1 || exists|i: int|
            0 <= i < entries.len() && (#[trigger] entries[i]).1.read_bytes_requested == full_bar(entries),
        forall|i: int|
            0 <= i < entries.len() ==> (#[trigger] entries[i]).1.read_bytes_requested <= full_bar(entries),
    decreases entries.len(),
{
    if entries.len() > 0 {
        let before = entries.drop_last();
        law_bars_fit(before);
        assert forall|i: int| 0 <= i < entries.len() implies (#[trigger] entries[i]).1.read_bytes_requested
            <= full_bar(entries) by {
            if i < before.len() {
                assert(before[i] == entries[i]);
            }
        }
        if full_bar(entries) == entries.last().1.read_bytes_requested {
            assert(entries[entries.len() - 1].1.read_bytes_requested == full_bar(entries));
        } else if full_bar(before) != 1 {
            let i = choose|i: int|
                0 <= i < before.len() && (#[trigger] before[i]).1.read_bytes_requested == full_bar(before);
            assert(entries[i].1.read_bytes_requested == full_bar(entries));
        }
    }
}

/// A full bar stands for the most bytes that any row read, and for at least one.
pub proof fn law_largest_row(rows: StatsView, r: u64, i: int)
    requires
        call_ensures(largest, (&rows,), r),
        0 <= i < rows.entries().len(),
    ensures
        r >= 1,
        rows.entries()[i].1.read_bytes_requested <= r,
        r == 1 || exists|k: int| 0 <= k < rows.entries().len() && (#[trigger] rows.entries()[k]).1.read_bytes_requested == r,
{
    lemma_full_bar(rows.entries(), i);
}

proof fn lemma_full_bar(entries: Seq<(usize, ExpertCounters)>, i: int)
    requires
        0 <= i < entries.len(),
    ensures
        full_bar(entries) >= 1,
        entries[i].1.read_bytes_requested <= full_bar(entries),
        full_bar(entries) == 1 || exists|k: int|
            0 <= k < entries.len() && (#[trigger] entries[k]).1.read_bytes_requested == full_bar(entries),
    decreases entries.len(),
{
    let head = entries.drop_last();
    let last = entries.len() - 1;
    assert(entries[last] == entries.last());
    if head.len() > 0 {
        let j = if i < last {
            i
        } else {
            0
        };
        lemma_full_bar(head, j);
        assert(head[j] == entries[j]);
        if full_bar(entries) == full_bar(head) && full_bar(head) != 1 {
            let k = choose|k: int| 0 <= k < head.len() && (#[trigger] head[k]).1.read_bytes_requested == full_bar(head);
            assert(entries[k] == head[k]);
        }
    }
}

} // verus!
