use vstd::prelude::*;

use crate::log_entry::{LogEntry, LogLevel, StatisticsSnapshot};

verus! {

/// Running counters of the entries of a device.
#[derive(Debug)]
pub struct Statistics {
    errors: u64,
    warnings: u64,
    hidden: u64,
    total: u64,
}

/// The counters of a [`Statistics`].
pub struct StatisticsView {
    pub errors: u64,
    pub warnings: u64,
    pub hidden: u64,
    pub total: u64,
}

/// Bytes that each observed entry is counted as in the memory estimate.
pub const BYTES_PER_ENTRY: u64 = 256;

/// The snapshot of counters `v`: errors, warnings, hidden entries and the memory
/// estimate (the rate is not measured and reads 0).
pub open spec fn stats_snapshot(v: StatisticsView) -> StatisticsSnapshot {
    StatisticsSnapshot {
        errors: v.errors,
        warnings: v.warnings,
        logs_per_second: 0,
        memory_bytes: (v.total * BYTES_PER_ENTRY) as u64,
        hidden: v.hidden,
    }
}

pub open spec fn is_error_level(l: LogLevel) -> bool {
    l == LogLevel::Error || l == LogLevel::Assert
}

impl View for Statistics {
    type V = StatisticsView;

    closed spec fn view(&self) -> StatisticsView {
        StatisticsView {
            errors: self.errors,
            warnings: self.warnings,
            hidden: self.hidden,
            total: self.total,
        }
    }
}

impl Default for Statistics {
    /// All counters at zero.
    fn default() -> (r: Self)
        ensures
            r@ == (StatisticsView { errors: 0, warnings: 0, hidden: 0, total: 0 }),
            r.wf(),
    {
        Statistics { errors: 0, warnings: 0, hidden: 0, total: 0 }
    }
}

impl Statistics {
    /// Errors and warnings are among the observed entries.
    pub closed spec fn wf(&self) -> bool {
        self.errors + self.warnings <= self.total
    }

    /// Errors and warnings are among the observed entries.
    pub proof fn counts_consistent(&self)
        requires
            self.wf(),
        ensures
            self@.errors + self@.warnings <= self@.total,
    {
    }

    /// Counts one more entry: errors (error and assert levels), warnings and hidden ones.
    pub fn observe(&mut self, entry: &LogEntry)
        requires
            old(self).wf(),
            old(self)@.total < u64::MAX,
            entry.hidden ==> old(self)@.hidden < u64::MAX,
        ensures
            final(self).wf(),
            final(self)@.total == old(self)@.total + 1,
            final(self)@.hidden == old(self)@.hidden + if entry.hidden { 1int } else { 0int },
            final(self)@.errors == old(self)@.errors + if is_error_level(entry.level) {
                1int
            } else {
                0int
            },
            final(self)@.warnings == old(self)@.warnings + if entry.level == LogLevel::Warn {
                1int
            } else {
                0int
            },
    {
        self.total = self.total + 1;
        if entry.hidden {
            self.hidden = self.hidden + 1;
        }
        match entry.level {
            LogLevel::Error | LogLevel::Assert => self.errors = self.errors + 1,
            LogLevel::Warn => self.warnings = self.warnings + 1,
            _ => {},
        }
    }

    /// Replaces the count of hidden entries.
    pub fn set_hidden(&mut self, hidden: u64)
        requires
            old(self).wf(),
        ensures
            final(self).wf(),
            final(self)@ == (StatisticsView { hidden, ..old(self)@ }),
    {
        self.hidden = hidden;
    }

    /// The counters for the user interface; memory is estimated per observed entry.
    pub fn snapshot(&self) -> (r: StatisticsSnapshot)
        requires
            self@.total * BYTES_PER_ENTRY <= u64::MAX,
        ensures
            r == stats_snapshot(self@),
    {
        StatisticsSnapshot {
            errors: self.errors,
            warnings: self.warnings,
            logs_per_second: 0,
            memory_bytes: self.total * BYTES_PER_ENTRY,
            hidden: self.hidden,
        }
    }
}

} // verus!
