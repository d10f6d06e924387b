//! Long transfers stay visible without an update for every piece.

use vstd::prelude::*;

verus! {

/// The nanoseconds between two updates.
pub const UPDATE_NS: u64 = 2_000_000_000;

/// What a transfer reports.
#[derive(Debug, Clone, Copy, PartialEq, Eq, Structural)]
pub enum Progress {
    Aggregate { bytes_completed: u64, total_bytes: u64 },
    Complete,
    Other,
}

/// What is shown of a report.
#[derive(Debug, Clone, Copy, PartialEq, Eq, Structural)]
pub enum Shown {
    Transfer { bytes_completed: u64, total_bytes: u64 },
    Complete,
    Nothing,
}

/// When an update was last shown.
#[derive(Debug, Clone, Copy)]
pub struct Reporter {
    pub last: Option<u64>,
}

impl Reporter {
    pub fn new() -> (r: Reporter)
        ensures
            r.last is None,
    {
        Reporter { last: None }
    }

    /// Whether an update is due.
    pub open spec fn due(self, now: u64) -> bool {
        match self.last {
            Some(last) => now - last >= UPDATE_NS,
            None => true,
        }
    }

    /// Decides what to show of a report that comes at a moment.
    pub fn on_progress(&mut self, report: Progress, now: u64) -> (r: Shown)
        requires
            old(self).last matches Some(last) ==> last <= now,
        ensures
            r == match report {
                Progress::Aggregate { bytes_completed, total_bytes } => if old(self).due(now) {
                    Shown::Transfer { bytes_completed, total_bytes }
                } else {
                    Shown::Nothing
                },
                Progress::Complete => Shown::Complete,
                Progress::Other => Shown::Nothing,
            },
            final(self).last == if r is Transfer {
                Some(now)
            } else {
                old(self).last
            },
    {
        match report {
            Progress::Aggregate { bytes_completed, total_bytes } => {
                let due: bool = match self.last {
                    Some(last) => now - last >= UPDATE_NS,
                    None => true,
                };
                if due {
                    self.last = Some(now);
                    Shown::Transfer { bytes_completed, total_bytes }
                } else {
                    Shown::Nothing
                }
            },
            Progress::Complete => Shown::Complete,
            Progress::Other => Shown::Nothing,
        }
    }
}

/// A transfer is shown at first and then once an update is due; the end is always shown, and no other
/// report is.
pub proof fn law_progress_shown(r: &mut Reporter, report: Progress, now: u64, s: Shown)
    requires
        call_ensures(Reporter::on_progress, (r, report, now), s),
        old(r).last matches Some(last) ==> last <= now,
    ensures
        report is Complete <==> s is Complete,
        report is Other ==> s is Nothing,
        report matches Progress::Aggregate { bytes_completed, total_bytes } ==> {
            let due = match old(r).last {
                Some(last) => now - last >= 2_000_000_000,
                None => true,
            };
            &&& due ==> s == (Shown::Transfer { bytes_completed, total_bytes }) && final(r).last == Some(now)
            &&& !due ==> s is Nothing
        },
        !(s is Transfer) ==> final(r).last == old(r).last,
{
}

} // verus!
