use vstd::prelude::*;
use crate::errors::ExtractError;

verus! {

// The parallel scheduler's decisions, separated from the threads that carry
// them out: which task runs post-processing, when new work must stop, and
// which error is reported. The surrounding program owns the atomics and
// locks; it consults this state under its lock and performs what the
// contracts promise.

/// The coordinator's decision state: one remaining-operation counter per
/// partition, the sticky cancellation flag, and the single-slot first error.
pub struct Coordinator {
    /// Operations still unfinished, per partition.
    pub remaining: Vec<u64>,
    /// Once set, never cleared: no new work may start.
    pub cancelled: bool,
    /// The first error recorded; later errors are suppressed.
    pub first_error: Option<ExtractError>,
}

impl Coordinator {
    /// A coordinator for partitions with the given operation counts: nothing
    /// is cancelled and no error is recorded.
    pub fn new(op_counts: Vec<u64>) -> (r: Coordinator)
        ensures
            r.remaining@ == op_counts@,
            !r.cancelled,
            r.first_error is None,
    {
        Coordinator { remaining: op_counts, cancelled: false, first_error: None }
    }

    /// May a task start work? Only while nothing was cancelled.
    pub fn may_start(&self) -> (r: bool)
        ensures
            r == !self.cancelled,
    {
        !self.cancelled
    }

    /// One operation of partition `i` finished: its counter falls by one, and
    /// the task that moves it to zero is the last task, which must run the
    /// partition's post-processing. Nothing else changes.
    pub fn task_done(&mut self, i: usize) -> (is_last: bool)
        requires
            i < old(self).remaining@.len(),
            old(self).remaining@[i as int] > 0,
        ensures
            final(self).remaining@ == old(self).remaining@.update(
                i as int,
                (old(self).remaining@[i as int] - 1) as u64,
            ),
            is_last == (final(self).remaining@[i as int] == 0),
            final(self).cancelled == old(self).cancelled,
            final(self).first_error == old(self).first_error,
    {
        let c = self.remaining[i] - 1;
        self.remaining.set(i, c);
        c == 0
    }

    /// A task failed: cancellation is set — and stays set — and the error is
    /// recorded only when it is the first.
    pub fn fail(&mut self, e: ExtractError)
        ensures
            final(self).cancelled,
            final(self).first_error == (match old(self).first_error {
                Some(first) => Some(first),
                None => Some(e),
            }),
            final(self).remaining@ == old(self).remaining@,
    {
        self.cancelled = true;
        match self.first_error {
            Some(_) => {},
            None => {
                self.first_error = Some(e);
            },
        }
    }

    /// An interrupt arrived: cancellation is set; the error slot and the
    /// counters keep their value.
    pub fn interrupt(&mut self)
        ensures
            final(self).cancelled,
            final(self).first_error == old(self).first_error,
            final(self).remaining@ == old(self).remaining@,
    {
        self.cancelled = true;
    }
}

/// The registry the cleanup paths consult: every output file created so far,
/// the output directory, and whether this run created that directory.
pub struct CleanupRegistry {
    /// Paths of the output files created so far.
    pub files: Vec<String>,
    /// The output directory's path.
    pub dir: String,
    /// Whether the directory was freshly created and so belongs to this run.
    pub dir_is_new: bool,
}

impl CleanupRegistry {
    /// A registry for a run that writes into `dir`; no file exists yet.
    pub fn new(dir: String, dir_is_new: bool) -> (r: CleanupRegistry)
        ensures
            r.files@.len() == 0,
            r.dir@ == dir@,
            r.dir_is_new == dir_is_new,
    {
        CleanupRegistry { files: Vec::new(), dir, dir_is_new }
    }

    /// Records an output file the moment it is created, so that every failure
    /// path sees it.
    pub fn register(&mut self, path: String)
        ensures
            final(self).files@ == old(self).files@.push(path),
            final(self).dir@ == old(self).dir@,
            final(self).dir_is_new == old(self).dir_is_new,
    {
        self.files.push(path);
    }

    /// On failure or interrupt: hands back every file registered so far — the
    /// caller deletes each — and says whether the directory must go too; the
    /// registry is left empty, so cleanup runs at most once.
    pub fn on_failure(&mut self) -> (r: (Vec<String>, bool))
        ensures
            r.0@ == old(self).files@,
            r.1 == old(self).dir_is_new,
            final(self).files@.len() == 0,
    {
        let mut files: Vec<String> = Vec::new();
        std::mem::swap(&mut files, &mut self.files);
        (files, self.dir_is_new)
    }

    /// On success: the registry is cleared, so the cleanup paths have nothing
    /// left to delete.
    pub fn on_success(&mut self)
        ensures
            final(self).files@.len() == 0,
    {
        self.files.clear();
    }
}

} // verus!
