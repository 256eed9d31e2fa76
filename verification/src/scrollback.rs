//! Decisions of committing rows into the terminal's scrollback: how rows are
//! handed over in chunks, when a partial insert stops a commit, and what a
//! history flush reports. The host performs each insert and reports back.

use vstd::prelude::*;

verus! {

/// The most rows handed to the terminal in one insert.
pub const MAX_ROWS_PER_COMMIT: usize = 65535;

/// What a history flush reports.
#[derive(Clone, Copy, Debug, PartialEq, Eq, Structural)]
pub enum FlushResult {
    /// Nothing is left uncommitted.
    Done,
    /// Rows are left and the last insert made progress.
    More,
    /// Rows are left that cannot be committed now.
    Blocked,
}

/// How many rows a commit asked for and how many the terminal took.
#[derive(Clone, Copy, Debug, PartialEq, Eq, Structural)]
pub struct CommitRowsOutcome {
    pub inserted: usize,
    pub requested: usize,
}

impl CommitRowsOutcome {
    /// Rows were asked for and none were taken.
    pub fn is_blocked(self) -> (r: bool)
        ensures
            r == (self.requested != 0 && self.inserted == 0),
    {
        self.requested != 0 && self.inserted == 0
    }

    /// Every row asked for was taken.
    pub fn is_complete(self) -> (r: bool)
        ensures
            r == (self.inserted == self.requested),
    {
        self.inserted == self.requested
    }
}

/// A commit of `requested` rows in progress: rows are handed over in chunks
/// of at most [`MAX_ROWS_PER_COMMIT`], and a chunk the terminal takes only in
/// part, or reports trouble on, ends the commit.
pub struct CommitProgress {
    pub requested: usize,
    pub offered: usize,
    pub inserted: usize,
    pub stopped: bool,
}

impl CommitProgress {
    /// The commit's invariant: no more rows offered than asked for, no more
    /// taken than offered.
    pub open spec fn wf(self) -> bool {
        &&& self.inserted <= self.offered <= self.requested
    }

    /// A commit of `requested` rows, nothing offered yet.
    pub fn new(requested: usize) -> (r: Self)
        ensures
            r == (CommitProgress { requested, offered: 0, inserted: 0, stopped: false }),
            r.wf(),
    {
        CommitProgress { requested, offered: 0, inserted: 0, stopped: false }
    }

    /// The next chunk to hand over, as a start and a length; `None` once the
    /// commit stopped or every row was offered.
    pub fn next_chunk(&self) -> (r: Option<(usize, usize)>)
        requires
            self.wf(),
        ensures
            (self.stopped || self.offered == self.requested) <==> r is None,
            r matches Some(chunk) ==> chunk.0 == self.offered && chunk.1 == if self.requested - self.offered
                > MAX_ROWS_PER_COMMIT {
                MAX_ROWS_PER_COMMIT as int
            } else {
                self.requested - self.offered
            },
    {
        if self.stopped || self.offered == self.requested {
            None
        } else {
            let left = self.requested - self.offered;
            let len = if left > MAX_ROWS_PER_COMMIT {
                MAX_ROWS_PER_COMMIT
            } else {
                left
            };
            Some((self.offered, len))
        }
    }

    /// Records what the terminal did with a chunk of `chunk_len` rows: it
    /// took `rows_inserted` of them, and reported trouble when `troubled`.
    /// The commit stops unless the whole chunk was taken without trouble.
    pub fn record(&mut self, chunk_len: usize, rows_inserted: usize, troubled: bool)
        requires
            old(self).wf(),
            !old(self).stopped,
            0 < chunk_len <= old(self).requested - old(self).offered,
            rows_inserted <= chunk_len,
        ensures
            final(self).wf(),
            final(self).requested == old(self).requested,
            final(self).offered == old(self).offered + chunk_len,
            final(self).inserted == old(self).inserted + rows_inserted,
            final(self).stopped == (rows_inserted != chunk_len || troubled),
    {
        self.offered = self.offered + chunk_len;
        self.inserted = self.inserted + rows_inserted;
        self.stopped = rows_inserted != chunk_len || troubled;
    }

    /// What the commit achieved.
    pub fn outcome(&self) -> (r: CommitRowsOutcome)
        ensures
            r == (CommitRowsOutcome { inserted: self.inserted, requested: self.requested }),
    {
        CommitRowsOutcome { inserted: self.inserted, requested: self.requested }
    }
}

/// How a history flush proceeds before it touches the terminal.
#[derive(Clone, Copy, Debug, PartialEq, Eq, Structural)]
pub enum FlushPlan {
    /// Nothing is uncommitted.
    Done,
    /// Rows are uncommitted but none may be committed now.
    Blocked,
    /// Commit this many rows from the head of the uncommitted history.
    Commit(usize),
}

/// The rows a flush commits: the uncommitted rows, at most `max_rows` of
/// them and no more than are committable.
pub open spec fn flush_len(uncommitted: usize, committable: usize, max_rows: usize) -> int {
    let a = if uncommitted < max_rows { uncommitted } else { max_rows };
    if a < committable { a as int } else { committable as int }
}

/// Plans one history flush: done when nothing is uncommitted, blocked when
/// no uncommitted row may be committed, else a commit of the rows that may.
pub fn plan_flush(uncommitted: usize, committable: usize, max_rows: usize) -> (r: FlushPlan)
    ensures
        uncommitted == 0 ==> r == FlushPlan::Done,
        uncommitted > 0 && flush_len(uncommitted, committable, max_rows) == 0 ==> r == FlushPlan::Blocked,
        uncommitted > 0 && flush_len(uncommitted, committable, max_rows) > 0 ==> r == FlushPlan::Commit(
            flush_len(uncommitted, committable, max_rows) as usize,
        ),
{
    if uncommitted == 0 {
        return FlushPlan::Done;
    }
    let capped = if uncommitted < max_rows {
        uncommitted
    } else {
        max_rows
    };
    let len = if capped < committable {
        capped
    } else {
        committable
    };
    if len == 0 {
        FlushPlan::Blocked
    } else {
        FlushPlan::Commit(len)
    }
}

/// What a flush reports once its rows were offered: done when nothing is
/// left uncommitted, blocked when the terminal took none of the rows, else
/// more to come.
pub fn flush_result(remaining_uncommitted: usize, outcome: CommitRowsOutcome) -> (r: FlushResult)
    ensures
        remaining_uncommitted == 0 ==> r == FlushResult::Done,
        remaining_uncommitted > 0 && outcome.requested != 0 && outcome.inserted == 0 ==> r == FlushResult::Blocked,
        remaining_uncommitted > 0 && !(outcome.requested != 0 && outcome.inserted == 0) ==> r == FlushResult::More,
{
    if remaining_uncommitted == 0 {
        FlushResult::Done
    } else if outcome.is_blocked() {
        FlushResult::Blocked
    } else {
        FlushResult::More
    }
}

/// How many rows a transcript commit takes from the history head: at most
/// `max_rows`, no more than are uncommitted, and no more than are
/// committable.
pub fn transcript_prefix_len(max_rows: usize, uncommitted: usize, committable: usize) -> (r: usize)
    ensures
        r == flush_len(uncommitted, committable, max_rows),
        r <= max_rows,
        r <= uncommitted,
        r <= committable,
{
    let capped = if max_rows < uncommitted {
        max_rows
    } else {
        uncommitted
    };
    if capped < committable {
        capped
    } else {
        committable
    }
}

} // verus!
