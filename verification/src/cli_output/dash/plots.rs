//! The lines of the charts: samples that follow each other without a gap.

use super::history::{History, Sample};
use crate::control::stats::Ratio;
use crate::text;
use crate::text::fixed;
use vstd::prelude::*;
use vstd::string::*;

verus! {

/// What a chart shows.
#[derive(Debug, Clone, Copy, PartialEq, Eq, Structural)]
pub enum Series {
    Reads,
    Wait,
    Coverage,
}

/// A point: how long before the last sample, and the value.
#[derive(Debug, Clone, Copy, PartialEq, Eq, Structural)]
pub struct Point {
    pub before: u128,
    pub value: Ratio,
}

/// A sample's value of a series.
pub open spec fn value_of(sample: Sample, series: Series) -> Option<Ratio> {
    match series {
        Series::Reads => sample.values.reads,
        Series::Wait => sample.values.wait,
        Series::Coverage => sample.values.coverage,
    }
}

fn value(sample: &Sample, series: Series) -> (r: Option<Ratio>)
    ensures
        r == value_of(*sample, series),
{
    match series {
        Series::Reads => sample.values.reads,
        Series::Wait => sample.values.wait,
        Series::Coverage => sample.values.coverage,
    }
}

/// A sample's point, seen from a time; a later one lies at it.
pub open spec fn point_of(sample: Sample, series: Series, end: u128) -> Point {
    Point {
        before: if end > sample.time {
            (end - sample.time) as u128
        } else {
            0
        },
        value: value_of(sample, series)->0,
    }
}

/// The runs of measured samples.
pub open spec fn runs(samples: Seq<Sample>, series: Series, end: u128) -> Seq<Seq<Point>>
    decreases samples.len(),
{
    if samples.len() == 0 {
        Seq::empty()
    } else {
        let before = runs(samples.drop_last(), series, end);
        if value_of(samples.last(), series) is None {
            before
        } else {
            let point = point_of(samples.last(), series, end);
            if samples.len() == 1 || value_of(samples[samples.len() - 2], series) is None {
                before.push(seq![point])
            } else {
                before.drop_last().push(before.last().push(point))
            }
        }
    }
}

/// What lists of points hold.
pub open spec fn views(list: Seq<Vec<Point>>) -> Seq<Seq<Point>> {
    list.map_values(|v: Vec<Point>| v@)
}

/// The lines of a chart.
pub fn segments(history: &History, series: Series) -> (r: Vec<Vec<Point>>)
    ensures
        views(r@) == runs(
            history.samples@,
            series,
            if history.samples@.len() > 0 {
                history.samples@.last().time
            } else {
                0
            },
        ),
{
    let n: usize = history.samples.len();
    let end: u128 = if n > 0 {
        history.samples[n - 1].time
    } else {
        0
    };
    let ghost samples = history.samples@;
    let mut out: Vec<Vec<Point>> = Vec::new();
    let mut i: usize = 0;
    assert(samples.take(0) =~= Seq::<Sample>::empty());
    assert(views(out@) =~= Seq::<Seq<Point>>::empty());
    while i < n
        invariant
            samples == history.samples@,
            n == samples.len(),
            i <= n,
            views(out@) == runs(samples.take(i as int), series, end),
            i > 0 && value_of(samples[i - 1], series) is Some ==> out@.len() > 0,
        decreases n - i,
    {
        let ghost before = views(out@);
        proof {
            assert(samples.take(i + 1).drop_last() =~= samples.take(i as int));
            assert(samples.take(i + 1).last() == samples[i as int]);
            if i > 0 {
                assert(samples.take(i + 1)[i - 1] == samples[i - 1]);
            }
        }
        let sample: Sample = history.samples[i];
        if let Some(v) = value(&sample, series) {
            let point = Point {
                before: if end > sample.time {
                    end - sample.time
                } else {
                    0
                },
                value: v,
            };
            let joined: bool = i > 0 && value(&history.samples[i - 1], series).is_some();
            if joined {
                let last: usize = out.len() - 1;
                let mut run: Vec<Point> = Vec::new();
                std::mem::swap(&mut run, &mut out[last]);
                run.push(point);
                out.set(last, run);
                assert(views(out@) =~= before.drop_last().push(before.last().push(point)));
            } else {
                let mut run: Vec<Point> = Vec::new();
                run.push(point);
                out.push(run);
                assert(views(out@) =~= before.push(seq![point]));
            }
        }
        i = i + 1;
    }
    assert(samples.take(i as int) =~= samples);
    out
}

/// The points of lines together.
pub open spec fn point_count(lines: Seq<Seq<Point>>) -> nat
    decreases lines.len(),
{
    if lines.len() == 0 {
        0
    } else {
        point_count(lines.drop_last()) + lines.last().len()
    }
}

/// How many samples were measured.
pub open spec fn measured(samples: Seq<Sample>, series: Series) -> nat
    decreases samples.len(),
{
    if samples.len() == 0 {
        0
    } else {
        measured(samples.drop_last(), series) + if value_of(samples.last(), series) is Some {
            1nat
        } else {
            0
        }
    }
}

/// Every measured sample is one point of one line, and no line is empty.
pub proof fn law_segments_hold_measured(samples: Seq<Sample>, series: Series, end: u128)
    ensures
        point_count(runs(samples, series, end)) == measured(samples, series),
        samples.len() > 0 && value_of(samples.last(), series) is Some ==> runs(samples, series, end).len() > 0,
        forall|i: int|
            0 <= i < runs(samples, series, end).len() ==> (#[trigger] runs(samples, series, end)[i]).len() > 0,
    decreases samples.len(),
{
    if samples.len() > 0 {
        let shorter = samples.drop_last();
        law_segments_hold_measured(shorter, series, end);
        let before = runs(shorter, series, end);
        let after = runs(samples, series, end);
        if value_of(samples.last(), series) is Some {
            let point = point_of(samples.last(), series, end);
            if samples.len() == 1 || value_of(samples[samples.len() - 2], series) is None {
                assert(after.drop_last() =~= before);
                assert forall|i: int| 0 <= i < after.len() implies (#[trigger] after[i]).len() > 0 by {
                    if i < before.len() {
                        assert(after[i] == before[i]);
                    }
                }
            } else {
                assert(shorter.last() == samples[samples.len() - 2]);
                assert(before.len() > 0);
                assert(after.drop_last() =~= before.drop_last());
                assert forall|i: int| 0 <= i < after.len() implies (#[trigger] after[i]).len() > 0 by {
                    if i < before.len() - 1 {
                        assert(after[i] == before[i]);
                    }
                }
            }
        }
    }
}

/// What a chart is called.
pub open spec fn label_of(series: Series) -> Seq<char> {
    match series {
        Series::Reads => "Expert reads"@,
        Series::Wait => "CPU read wait"@,
        Series::Coverage => "GPU stage coverage"@,
    }
}

pub fn label(series: Series) -> (r: &'static str)
    ensures
        r@ == label_of(series),
{
    match series {
        Series::Reads => "Expert reads",
        Series::Wait => "CPU read wait",
        Series::Coverage => "GPU stage coverage",
    }
}

/// What a chart's values are measured in.
pub open spec fn unit_of(series: Series) -> Seq<char> {
    match series {
        Series::Reads => "MB/s"@,
        Series::Wait => "ms/s"@,
        Series::Coverage => "%"@,
    }
}

/// What a value is multiplied by for its unit: bytes per nanosecond are a thousand megabytes
/// per second, nanoseconds of each nanosecond a thousand milliseconds of each second.
pub fn factor(series: Series) -> (r: u128)
    ensures
        r == if series == Series::Coverage {
            100
        } else {
            1000u128
        },
{
    match series {
        Series::Coverage => 100,
        _ => 1000,
    }
}

/// The last value of a series.
pub open spec fn latest(history: History, series: Series) -> Option<Ratio> {
    if history.samples@.len() > 0 {
        value_of(history.samples@.last(), series)
    } else {
        None
    }
}

/// What stands above a chart: the last value, and whether it is an old one.
pub open spec fn caption_text(history: History, series: Series, stale: bool) -> Seq<char> {
    (match latest(history, series) {
        Some(r) => text::fixed_text(
            r.numerator as nat * if series == Series::Coverage {
                100nat
            } else {
                1000
            },
            r.denominator as nat,
            1,
        ),
        None => "n/a"@,
    }) + " "@ + unit_of(series) + (if stale {
        " (stale)"@
    } else {
        Seq::empty()
    })
}

pub fn caption(history: &History, series: Series, stale: bool) -> (r: String)
    requires
        latest(*history, series) matches Some(r) ==> r.denominator > 0 && r.numerator * 1_000_000 <= u128::MAX,
    ensures
        r@ == caption_text(*history, series, stale),
{
    let n: usize = history.samples.len();
    let last: Option<Ratio> = if n > 0 {
        value(&history.samples[n - 1], series)
    } else {
        None
    };
    let mut out: String = match last {
        Some(r) => fixed(r.numerator * factor(series), r.denominator, false),
        None => "n/a".to_owned(),
    };
    out.append(" ");
    match series {
        Series::Reads => out.append("MB/s"),
        Series::Wait => out.append("ms/s"),
        Series::Coverage => out.append("%"),
    }
    let ghost before = out@;
    if stale {
        out.append(" (stale)");
    } else {
        assert(before =~= before + Seq::<char>::empty());
    }
    out
}

/// One sample more: one without a value ends the line; one behind a value goes on with it; any other
/// starts a line of its own. A point lies as long before the end as its sample.
pub proof fn law_lines_drawn(samples: Seq<Sample>, sample: Sample, series: Series, end: u128)
    requires
        sample.time <= end,
    ensures
        ({
            let before = runs(samples, series, end);
            let after = runs(samples.push(sample), series, end);
            let v = match series {
                Series::Reads => sample.values.reads,
                Series::Wait => sample.values.wait,
                Series::Coverage => sample.values.coverage,
            };
            let point = Point { before: (end - sample.time) as u128, value: v->0 };
            &&& v is None ==> after == before
            &&& v is Some && (samples.len() == 0 || value_of(samples.last(), series) is None) ==> after == before.push(
                seq![point],
            )
            &&& v is Some && samples.len() > 0 && value_of(samples.last(), series) is Some ==> after.drop_last()
                == before.drop_last() && after.last() == before.last().push(point)
        }),
        runs(Seq::empty(), series, end).len() == 0,
{
    let all = samples.push(sample);
    assert(all.drop_last() =~= samples);
    if samples.len() > 0 {
        assert(all[all.len() - 2] == samples.last());
    }
    let before = runs(samples, series, end);
    let after = runs(all, series, end);
    if value_of(sample, series) is Some && samples.len() > 0 && value_of(samples.last(), series) is Some {
        assert(after.drop_last() =~= before.drop_last());
    }
}

/// Shares are shown in hundredths, and rates in thousandths of their ratio.
pub proof fn law_factors(series: Series, r: u128)
    requires
        call_ensures(factor, (series,), r),
    ensures
        series is Coverage ==> r == 100,
        series is Reads || series is Wait ==> r == 1000,
{
}

} // verus!
