//! The summary of a run.

use vstd::prelude::*;
use crate::event::{Event, EventView, Level, events_view};
use crate::ranking::{
    UserCount,
    counts_view,
    distinct_users,
    ranks_strictly_above,
    top_three,
    top_users,
};
use crate::stats::{
    durations,
    durations_of,
    is_first_longest,
    longest_index,
    p95,
    p95_of,
};

verus! {

/// How many accepted events carry each level.
#[derive(Debug, Clone, Copy, PartialEq, Eq, Structural)]
pub struct LevelCounts {
    pub info: usize,
    pub warn: usize,
    pub error: usize,
}

impl LevelCounts {
    pub open spec fn get(self, l: Level) -> usize {
        match l {
            Level::Info => self.info,
            Level::Warn => self.warn,
            Level::Error => self.error,
        }
    }
}

/// The report of a run.
#[derive(Debug, Clone)]
pub struct SummaryResult {
    /// Lines seen, blank ones included.
    pub total_lines: usize,
    /// Lines that are blank, undecodable or invalid.
    pub bad_lines: usize,
    /// Accepted events.
    pub events: usize,
    pub by_level: LevelCounts,
    /// At most three users, most active first, equal counts by name.
    pub top_users: Vec<UserCount>,
    /// Nearest-rank 95th percentile of the durations, 0 without events.
    pub p95_duration_ms: u64,
    /// The first event of greatest duration, if any.
    pub outlier: Option<Event>,
}

/// The mathematical content of a [`SummaryResult`].
pub struct SummaryView {
    pub total_lines: usize,
    pub bad_lines: usize,
    pub events: usize,
    pub by_level: LevelCounts,
    pub top_users: Seq<(Seq<char>, usize)>,
    pub p95_duration_ms: u64,
    pub outlier: Option<EventView>,
}

pub open spec fn opt_event_view(o: Option<Event>) -> Option<EventView> {
    match o {
        Some(e) => Some(e@),
        None => None,
    }
}

impl View for SummaryResult {
    type V = SummaryView;

    open spec fn view(&self) -> SummaryView {
        SummaryView {
            total_lines: self.total_lines,
            bad_lines: self.bad_lines,
            events: self.events,
            by_level: self.by_level,
            top_users: counts_view(self.top_users@),
            p95_duration_ms: self.p95_duration_ms,
            outlier: opt_event_view(self.outlier),
        }
    }
}

/// The first event of greatest duration; `None` for no events.
pub open spec fn outlier_of(vs: Seq<EventView>) -> Option<EventView> {
    if vs.len() == 0 {
        None
    } else {
        let i = choose|i: int| is_first_longest(durations(vs), i);
        Some(vs[i])
    }
}

/// At most one position holds the first event of greatest duration.
pub proof fn lemma_first_longest_unique(ds: Seq<u64>, i: int, j: int)
    requires
        is_first_longest(ds, i),
        is_first_longest(ds, j),
    ensures
        i == j,
{
    if i < j {
        assert(ds[i] < ds[j]);
    } else if j < i {
        assert(ds[j] < ds[i]);
    }
}

impl SummaryResult {
    /// An empty summary: all counts 0, no users, no outlier.
    pub fn new() -> (r: SummaryResult)
        ensures
            r@ == (SummaryView {
                total_lines: 0,
                bad_lines: 0,
                events: 0,
                by_level: LevelCounts { info: 0, warn: 0, error: 0 },
                top_users: Seq::empty(),
                p95_duration_ms: 0,
                outlier: None,
            }),
    {
        let r = SummaryResult {
            total_lines: 0,
            bad_lines: 0,
            events: 0,
            by_level: LevelCounts { info: 0, warn: 0, error: 0 },
            top_users: Vec::new(),
            p95_duration_ms: 0,
            outlier: None,
        };
        assert(r@.top_users =~= Seq::empty());
        r
    }

    pub fn increment_total_lines(&mut self)
        requires
            old(self).total_lines < usize::MAX,
        ensures
            final(self)@ == (SummaryView { total_lines: (old(self).total_lines + 1) as usize, ..old(self)@ }),
    {
        self.total_lines = self.total_lines + 1;
    }

    pub fn increment_bad_lines(&mut self)
        requires
            old(self).bad_lines < usize::MAX,
        ensures
            final(self)@ == (SummaryView { bad_lines: (old(self).bad_lines + 1) as usize, ..old(self)@ }),
    {
        self.bad_lines = self.bad_lines + 1;
    }

    pub fn increment_events(&mut self)
        requires
            old(self).events < usize::MAX,
        ensures
            final(self)@ == (SummaryView { events: (old(self).events + 1) as usize, ..old(self)@ }),
    {
        self.events = self.events + 1;
    }

    /// Counts one more event of level `level`.
    pub fn update_level_counts(&mut self, level: Level)
        requires
            old(self).by_level.get(level) < usize::MAX,
        ensures
            final(self).by_level.get(level) == old(self).by_level.get(level) + 1,
            forall|l: Level| l != level ==> final(self).by_level.get(l) == old(self).by_level.get(l),
            final(self)@ == (SummaryView { by_level: final(self).by_level, ..old(self)@ }),
    {
        match level {
            Level::Info => self.by_level.info = self.by_level.info + 1,
            Level::Warn => self.by_level.warn = self.by_level.warn + 1,
            Level::Error => self.by_level.error = self.by_level.error + 1,
        }
    }

    /// Keeps the three best ranked users of `user_counts`, in which no user
    /// is listed twice.
    pub fn compute_top_users(&mut self, user_counts: &Vec<UserCount>)
        requires
            distinct_users(counts_view(user_counts@)),
        ensures
            final(self)@ == (SummaryView { top_users: top_three(counts_view(user_counts@)), ..old(self)@ }),
            forall|i: int, j: int|
                0 <= i < j < final(self).top_users@.len() ==> ranks_strictly_above(
                    #[trigger] final(self).top_users@[i]@,
                    #[trigger] final(self).top_users@[j]@,
                ),
    {
        let top = top_users(user_counts);
        proof {
            assert forall|i: int, j: int| 0 <= i < j < top@.len() implies ranks_strictly_above(
                #[trigger] top@[i]@,
                #[trigger] top@[j]@,
            ) by {
                assert(counts_view(top@)[i] == top@[i]@ && counts_view(top@)[j] == top@[j]@);
            }
        }
        self.top_users = top;
    }

    /// Records the nearest-rank 95th percentile of the events' durations.
    pub fn compute_p95_duration(&mut self, events: &[Event])
        ensures
            final(self)@ == (SummaryView {
                p95_duration_ms: p95_of(durations(events_view(events@))),
                ..old(self)@
            }),
    {
        let ds = durations_of(events);
        self.p95_duration_ms = p95(&ds);
    }

    /// Records the first event of greatest duration, or none without events.
    pub fn compute_outlier(&mut self, events: &[Event])
        ensures
            final(self)@ == (SummaryView { outlier: outlier_of(events_view(events@)), ..old(self)@ }),
    {
        match longest_index(events) {
            Some(i) => {
                proof {
                    let ds = durations(events_view(events@));
                    let j = choose|j: int| is_first_longest(ds, j);
                    lemma_first_longest_unique(ds, i as int, j);
                }
                self.outlier = Some(events[i].duplicate());
            },
            None => {
                self.outlier = None;
            },
        }
    }
}

} // verus!
