//! Progress reporting over a long-running walk: a report is emitted at
//! most once per configured span, with the elapsed time, the finished
//! count and the remaining count; from those a consumer derives the
//! estimated remaining time and the per-item speed.

use vstd::prelude::*;

verus! {

/// How often a report is emitted by default: once a second.
pub const DEFAULT_WRITE_SPAN_NANOS: u64 = 1_000_000_000;

/// One progress report.
#[derive(Clone, Copy, Debug, PartialEq, Eq, Structural)]
pub struct ProgressState {
    /// Items still to process.
    pub remain: usize,
    /// Items processed before the current one.
    pub finished: usize,
    /// Nanoseconds since the walk started.
    pub elapsed_nanos: u64,
}

impl ProgressState {
    /// The estimated remaining time in nanoseconds: the elapsed time
    /// scaled by the remaining share; nothing before the first item is
    /// done.
    pub fn estimated_remain_duration(&self) -> (r: Option<u64>)
        requires
            self.elapsed_nanos * self.remain <= u64::MAX as int,
        ensures
            r == (if self.finished > 0 {
                Some((((self.elapsed_nanos as int) * (self.remain as int)) / (self.finished as int)) as u64)
            } else {
                None::<u64>
            }),
    {
        if self.finished > 0 {
            Some(self.elapsed_nanos * self.remain as u64 / self.finished as u64)
        } else {
            None
        }
    }

    /// The average time one item took, in nanoseconds; nothing before
    /// the first item is done.
    pub fn speed(&self) -> (r: Option<u64>)
        ensures
            r == (if self.finished > 0 {
                Some(((self.elapsed_nanos as int) / (self.finished as int)) as u64)
            } else {
                None::<u64>
            }),
    {
        if self.finished > 0 {
            Some(self.elapsed_nanos / self.finished as u64)
        } else {
            None
        }
    }
}

/// The reporting state of one walk: when it started, when it last
/// reported, how often it may report, and how many items are done.
pub struct ProgressBar {
    /// When the walk started, in nanoseconds of the caller's clock.
    pub start_nanos: u64,
    /// When the last report was emitted.
    pub prev_write_nanos: u64,
    /// The minimum time between reports.
    pub write_span_nanos: u64,
    /// Items processed so far.
    pub finished: usize,
}

impl ProgressBar {
    /// The clock never runs backwards past the recorded instants.
    pub open spec fn wf(self) -> bool {
        self.start_nanos <= self.prev_write_nanos
    }

    /// Start reporting at the default once-a-second span.
    pub fn new(now_nanos: u64) -> (r: ProgressBar)
        ensures
            r.start_nanos == now_nanos,
            r.prev_write_nanos == now_nanos,
            r.write_span_nanos == DEFAULT_WRITE_SPAN_NANOS,
            r.finished == 0,
            r.wf(),
    {
        ProgressBar {
            start_nanos: now_nanos,
            prev_write_nanos: now_nanos,
            write_span_nanos: DEFAULT_WRITE_SPAN_NANOS,
            finished: 0,
        }
    }

    /// Record one processed item at the given instant; a report comes
    /// back exactly when the configured span has passed since the last
    /// one, and carries the count of items finished before this one.
    pub fn on_item(&mut self, now_nanos: u64, remain: usize) -> (r: Option<ProgressState>)
        requires
            old(self).wf(),
            old(self).prev_write_nanos <= now_nanos,
            old(self).finished < usize::MAX,
        ensures
            final(self).wf(),
            final(self).start_nanos == old(self).start_nanos,
            final(self).write_span_nanos == old(self).write_span_nanos,
            final(self).finished == old(self).finished + 1,
            r == (if now_nanos - old(self).prev_write_nanos >= old(self).write_span_nanos {
                Some(
                    ProgressState {
                        remain,
                        finished: old(self).finished,
                        elapsed_nanos: (now_nanos - old(self).start_nanos) as u64,
                    },
                )
            } else {
                None::<ProgressState>
            }),
            r is Some ==> final(self).prev_write_nanos == now_nanos,
            r is None ==> final(self).prev_write_nanos == old(self).prev_write_nanos,
    {
        let report = if now_nanos - self.prev_write_nanos >= self.write_span_nanos {
            let state = ProgressState {
                remain,
                finished: self.finished,
                elapsed_nanos: now_nanos - self.start_nanos,
            };
            self.prev_write_nanos = now_nanos;
            Some(state)
        } else {
            None
        };
        self.finished = self.finished + 1;
        report
    }
}

} // verus!
