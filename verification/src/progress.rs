//! Progress through the files of a translation session.

use vstd::prelude::*;

verus! {

/// Maximum number of translation attempts per file (one initial attempt and two retries).
pub const MAX_TRANSLATION_ATTEMPTS: usize = 3;

/// Lines of code (C source or Rust) shown in a preview.
pub const CODE_PREVIEW_LINES: usize = 15;

/// Lines of an error message shown in a preview.
pub const ERROR_PREVIEW_LINES: usize = 10;

/// How many files have been processed out of how many.
#[derive(Debug)]
pub struct ProgressState {
    /// Files processed so far, counting earlier sessions.
    pub processed_count: usize,
    /// Files to process in all (for display).
    pub total_count: usize,
}

impl ProgressState {
    /// The processed count never exceeds the total.
    pub open spec fn consistent(&self) -> bool {
        self.processed_count <= self.total_count
    }

    /// A fresh state for `total_count` files.
    pub fn new(total_count: usize) -> (s: Self)
        ensures
            s.processed_count == 0,
            s.total_count == total_count,
            s.consistent(),
    {
        ProgressState { processed_count: 0, total_count }
    }

    /// A state for `total_count` files of which `already_processed` are done,
    /// the latter capped at `total_count`.
    pub fn with_initial_progress(total_count: usize, already_processed: usize) -> (s: Self)
        ensures
            s.processed_count == (if already_processed < total_count { already_processed } else { total_count }),
            s.total_count == total_count,
            s.consistent(),
    {
        let processed_count = if already_processed < total_count { already_processed } else { total_count };
        ProgressState { processed_count, total_count }
    }

    /// Counts one more processed file, never beyond the total.
    pub fn mark_processed(&mut self)
        ensures
            final(self).total_count == old(self).total_count,
            final(self).processed_count == (if old(self).processed_count < old(self).total_count {
                old(self).processed_count + 1
            } else {
                old(self).processed_count as int
            }),
            old(self).consistent() ==> final(self).consistent(),
    {
        if self.processed_count < self.total_count {
            self.processed_count = self.processed_count + 1;
        }
    }

    /// Replaces both counts with actual ones, capping `processed` at `total`.
    pub fn refresh(&mut self, total: usize, processed: usize)
        ensures
            final(self).total_count == total,
            final(self).processed_count == (if processed < total { processed } else { total }),
            final(self).consistent(),
    {
        self.total_count = total;
        self.processed_count = if processed < total { processed } else { total };
    }

    /// The position of the next file, counting from 1.
    pub fn get_current_position(&self) -> (p: usize)
        requires
            self.processed_count < usize::MAX,
        ensures
            p == self.processed_count + 1,
    {
        self.processed_count + 1
    }

    /// The number of files to process.
    pub fn get_total_count(&self) -> (n: usize)
        ensures
            n == self.total_count,
    {
        self.total_count
    }
}

impl Default for ProgressState {
    fn default() -> (s: Self)
        ensures
            s.processed_count == 0,
            s.total_count == 0,
    {
        ProgressState::new(0)
    }
}

} // verus!
