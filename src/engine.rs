//! The running tally of one run, fed one line at a time.

use vstd::prelude::*;
use crate::event::{Event, EventView, Level, LineError, events_view, line_outcome};
use crate::ranking::{UserCount, counts_view, distinct_users, top_three};
use crate::result::{LevelCounts, SummaryResult, SummaryView, outlier_of};
use crate::stats::{durations, p95_of};
use crate::text::{is_blank, is_blank_line};

verus! {

/// The events that a sequence of lines yields, in input order: each line that
/// is not blank and decodes to a valid event contributes that event.
pub open spec fn accepted(lines: Seq<Seq<char>>) -> Seq<EventView>
    decreases lines.len(),
{
    if lines.len() == 0 {
        Seq::empty()
    } else {
        accept_line(accepted(lines.drop_last()), lines.last())
    }
}

/// The accepted events after one more line.
pub open spec fn accept_line(prev: Seq<EventView>, line: Seq<char>) -> Seq<EventView> {
    if is_blank(line) {
        prev
    } else {
        match line_outcome(line) {
            Ok(e) => prev.push(e),
            Err(_) => prev,
        }
    }
}

/// How many events carry level `l`.
pub open spec fn level_count(es: Seq<EventView>, l: Level) -> nat {
    es.filter(|e: EventView| e.level == l).len()
}

/// How many events belong to user `u`.
pub open spec fn user_count(es: Seq<EventView>, u: Seq<char>) -> nat {
    es.filter(|e: EventView| e.user == u).len()
}

/// The users of the events, each once, in order of first appearance.
pub open spec fn users_seen(es: Seq<EventView>) -> Seq<Seq<char>>
    decreases es.len(),
{
    if es.len() == 0 {
        Seq::empty()
    } else {
        let prev = users_seen(es.drop_last());
        if prev.contains(es.last().user) {
            prev
        } else {
            prev.push(es.last().user)
        }
    }
}

/// Each user seen with the number of their events.
pub open spec fn user_tally(es: Seq<EventView>) -> Seq<(Seq<char>, usize)> {
    users_seen(es).map_values(|u: Seq<char>| (u, user_count(es, u) as usize))
}

/// The summary of `total_lines` lines of which `es` are the accepted events.
pub open spec fn summary_from(total_lines: int, es: Seq<EventView>) -> SummaryView {
    SummaryView {
        total_lines: total_lines as usize,
        bad_lines: (total_lines - es.len()) as usize,
        events: es.len() as usize,
        by_level: LevelCounts {
            info: level_count(es, Level::Info) as usize,
            warn: level_count(es, Level::Warn) as usize,
            error: level_count(es, Level::Error) as usize,
        },
        top_users: top_three(user_tally(es)),
        p95_duration_ms: p95_of(durations(es)),
        outlier: outlier_of(es),
    }
}

/// The summary that a run over `lines` produces.
pub open spec fn summary_of(lines: Seq<Seq<char>>) -> SummaryView {
    summary_from(lines.len() as int, accepted(lines))
}

pub open spec fn lines_view(lines: Seq<String>) -> Seq<Seq<char>> {
    lines.map_values(|s: String| s@)
}

/// How one line was classified.
#[derive(Debug, Clone, Copy, PartialEq, Eq, Structural)]
pub enum LineStatus {
    /// Only white space: counted as a line and as a bad line.
    Blank,
    /// Became an event.
    Accepted,
    /// Counted as a bad line, for the reason given.
    Rejected(LineError),
}

/// The classification of a line.
pub open spec fn line_status(line: Seq<char>) -> LineStatus {
    if is_blank(line) {
        LineStatus::Blank
    } else {
        match line_outcome(line) {
            Ok(_) => LineStatus::Accepted,
            Err(err) => LineStatus::Rejected(err),
        }
    }
}

/// The counters of `r` agree with the accepted events `es`: every line is
/// either a bad line or an event, and each level is counted exactly.
pub open spec fn counters_agree(r: SummaryResult, es: Seq<EventView>) -> bool {
    &&& r.total_lines == r.bad_lines + r.events
    &&& r.events == es.len()
    &&& r.by_level.info == level_count(es, Level::Info)
    &&& r.by_level.warn == level_count(es, Level::Warn)
    &&& r.by_level.error == level_count(es, Level::Error)
}

/// Whether a line with status `st` yields an event.
pub open spec fn is_accepted(st: LineStatus) -> bool {
    st == LineStatus::Accepted
}

/// The state of one run: the accepted events in input order, the count of
/// each user's events, and the counters of the summary.
pub struct App {
    events: Vec<Event>,
    user_counts: Vec<UserCount>,
    result: SummaryResult,
}

proof fn lemma_user_count_bounded(es: Seq<EventView>, u: Seq<char>)
    ensures
        user_count(es, u) <= es.len(),
{
    es.lemma_filter_len(|e: EventView| e.user == u);
}

proof fn lemma_level_count_bounded(es: Seq<EventView>, l: Level)
    ensures
        level_count(es, l) <= es.len(),
{
    es.lemma_filter_len(|e: EventView| e.level == l);
}

proof fn lemma_users_seen_distinct(es: Seq<EventView>)
    ensures
        users_seen(es).no_duplicates(),
        forall|u: Seq<char>| #[trigger] users_seen(es).contains(u) <==> user_count(es, u) > 0,
    decreases es.len(),
{
    if es.len() > 0 {
        let prev = es.drop_last();
        let e = es.last();
        lemma_users_seen_distinct(prev);
        assert(es =~= prev.push(e));
        assert forall|u: Seq<char>| #[trigger] users_seen(es).contains(u) <==> user_count(es, u) > 0 by {
            lemma_user_count_push(prev, e, u);
            if users_seen(es).contains(u) && !users_seen(prev).contains(u) {
                assert(u == e.user) by {
                    let k = choose|k: int| 0 <= k < users_seen(es).len() && users_seen(es)[k] == u;
                    if k < users_seen(prev).len() {
                        assert(users_seen(prev)[k] == u);
                    }
                }
            }
            if u == e.user {
                if !users_seen(prev).contains(u) {
                    assert(users_seen(es)[users_seen(es).len() - 1] == u);
                }
            } else if users_seen(prev).contains(u) {
                let k = choose|k: int| 0 <= k < users_seen(prev).len() && users_seen(prev)[k] == u;
                assert(users_seen(es)[k] == u);
            }
        }
    }
}

proof fn lemma_user_tally_distinct(es: Seq<EventView>)
    ensures
        distinct_users(user_tally(es)),
{
    lemma_users_seen_distinct(es);
    assert forall|i: int, j: int| 0 <= i < j < user_tally(es).len() implies user_tally(es)[i].0
        != user_tally(es)[j].0 by {
        assert(user_tally(es)[i].0 == users_seen(es)[i]);
        assert(user_tally(es)[j].0 == users_seen(es)[j]);
    }
}

proof fn lemma_user_count_push(es: Seq<EventView>, e: EventView, u: Seq<char>)
    ensures
        user_count(es.push(e), u) == user_count(es, u) + if e.user == u { 1nat } else { 0nat },
{
    let f = |v: EventView| v.user == u;
    assert(es.push(e).filter(f) =~= if f(e) { es.filter(f).push(e) } else { es.filter(f) }) by {
        es.lemma_filter_push(e, f);
    }
}

proof fn lemma_level_count_push(es: Seq<EventView>, e: EventView, l: Level)
    ensures
        level_count(es.push(e), l) == level_count(es, l) + if e.level == l { 1nat } else { 0nat },
{
    let f = |v: EventView| v.level == l;
    es.lemma_filter_push(e, f);
}

impl App {
    /// The accepted events, as values.
    pub closed spec fn events_spec(&self) -> Seq<EventView> {
        events_view(self.events@)
    }

    pub closed spec fn result_spec(&self) -> SummaryResult {
        self.result
    }

    /// Each user seen, with the number of their events.
    pub closed spec fn user_counts_spec(&self) -> Seq<(Seq<char>, usize)> {
        counts_view(self.user_counts@)
    }

    /// The counters and the user counts agree with the accepted events.
    pub open spec fn wf(&self) -> bool {
        &&& counters_agree(self.result_spec(), self.events_spec())
        &&& self.user_counts_spec() == user_tally(self.events_spec())
    }

    /// A run that has seen no line yet.
    pub fn new() -> (r: App)
        ensures
            r.wf(),
            counters_agree(r.result_spec(), r.events_spec()),
            r.user_counts_spec() == Seq::<(Seq<char>, usize)>::empty(),
            r.events_spec() == Seq::<EventView>::empty(),
            r.result_spec()@ == summary_from(0, Seq::empty()),
    {
        let r = App { events: Vec::new(), user_counts: Vec::new(), result: SummaryResult::new() };
        proof {
            let es = events_view(r.events@);
            assert(es =~= Seq::<EventView>::empty());
            assert(es.filter(|e: EventView| e.level == Level::Info) =~= Seq::<EventView>::empty());
            assert(es.filter(|e: EventView| e.level == Level::Warn) =~= Seq::<EventView>::empty());
            assert(es.filter(|e: EventView| e.level == Level::Error) =~= Seq::<EventView>::empty());
            assert(counts_view(r.user_counts@) =~= user_tally(es));
            assert(counts_view(r.user_counts@) =~= Seq::<(Seq<char>, usize)>::empty());
            assert(r.result@.top_users =~= summary_from(0, Seq::empty()).top_users);
            assert(durations(es).len() == 0);
            assert(r.result@ == summary_from(0, Seq::empty()));
        }
        r
    }

    /// Counts one more event of `user`, the user of the event just appended.
    fn increment_user_count(&mut self, user: &String)
        requires
            events_view(old(self).events@).len() > 0,
            user@ == events_view(old(self).events@).last().user,
            counts_view(old(self).user_counts@) == user_tally(
                events_view(old(self).events@).drop_last(),
            ),
        ensures
            counts_view(final(self).user_counts@) == user_tally(events_view(final(self).events@)),
            final(self).events == old(self).events,
            final(self).result == old(self).result,
    {
        let ghost es = events_view(self.events@);
        let ghost prev = es.drop_last();
        let ghost e = es.last();
        proof {
            assert(es =~= prev.push(e));
            lemma_users_seen_distinct(prev);
            lemma_user_count_bounded(prev, user@);
        }
        let n = self.user_counts.len();
        let mut k: usize = 0;
        while k < n && !(self.user_counts[k].user == *user)
            invariant
                n == self.user_counts@.len(),
                k <= n,
                counts_view(self.user_counts@) == user_tally(prev),
                forall|j: int| 0 <= j < k ==> counts_view(self.user_counts@)[j].0 != user@,
            decreases n - k,
        {
            k = k + 1;
        }
        let ghost old_counts = counts_view(self.user_counts@);
        if k < n {
            let c = self.user_counts[k].count;
            let m = self.events.len();
            proof {
                assert(self.user_counts@[k as int].user@ == user@);
                assert(old_counts[k as int].0 == user@);
                assert(user_tally(prev).len() == users_seen(prev).len());
                assert(k < users_seen(prev).len());
                assert(user_tally(prev)[k as int].0 == users_seen(prev)[k as int]);
                assert(users_seen(prev)[k as int] == user@);
                assert(users_seen(prev).contains(user@));
                assert(users_seen(es) == users_seen(prev));
                assert(c == user_count(prev, user@));
                assert(prev.len() == m - 1);
            }
            self.user_counts.set(k, UserCount { user: user.clone(), count: c + 1 });
            proof {
                assert forall|j: int| 0 <= j < users_seen(es).len() implies
                    #[trigger] counts_view(self.user_counts@)[j] == user_tally(es)[j] by {
                    let u = users_seen(es)[j];
                    lemma_user_count_push(prev, e, u);
                    lemma_user_count_bounded(prev, u);
                    lemma_user_count_bounded(es, u);
                    assert(es.len() == m);
                    if j != k {
                        assert(users_seen(prev)[j] != users_seen(prev)[k as int]);
                        assert(counts_view(self.user_counts@)[j] == old_counts[j]);
                        assert(old_counts[j] == user_tally(prev)[j]);
                    } else {
                        assert(counts_view(self.user_counts@)[j] == (user@, (c + 1) as usize));
                    }
                }
                assert(counts_view(self.user_counts@) =~= user_tally(es));
            }
        } else {
            proof {
                assert(!users_seen(prev).contains(user@)) by {
                    if users_seen(prev).contains(user@) {
                        let j = choose|j: int| 0 <= j < users_seen(prev).len() && users_seen(prev)[j] == user@;
                        assert(user_tally(prev).len() == users_seen(prev).len());
                        assert(user_tally(prev)[j].0 == users_seen(prev)[j]);
                        assert(old_counts[j] == user_tally(prev)[j]);
                        assert(old_counts[j].0 != user@);
                    }
                }
                assert(users_seen(es) == users_seen(prev).push(user@));
            }
            self.user_counts.push(UserCount { user: user.clone(), count: 1 });
            proof {
                assert forall|j: int| 0 <= j < users_seen(es).len() implies
                    #[trigger] counts_view(self.user_counts@)[j] == user_tally(es)[j] by {
                    let u = users_seen(es)[j];
                    lemma_user_count_push(prev, e, u);
                    lemma_user_count_bounded(prev, u);
                    lemma_user_count_bounded(es, u);
                    if j < old_counts.len() {
                        assert(counts_view(self.user_counts@)[j] == old_counts[j]);
                        assert(old_counts[j] == user_tally(prev)[j]);
                        assert(users_seen(prev)[j] != user@);
                    } else {
                        assert(user_count(prev, user@) == 0);
                    }
                }
                assert(old_counts.len() == users_seen(prev).len());
                assert(counts_view(self.user_counts@).len() == old_counts.len() + 1);
                assert(users_seen(es).len() == users_seen(prev).len() + 1);
                assert(counts_view(self.user_counts@).len() == user_tally(es).len());
                assert(counts_view(self.user_counts@) =~= user_tally(es));
            }
        }
    }

    /// Classifies one line and folds it into the tally: a blank line and a
    /// rejected line count as bad lines, an accepted event is appended and
    /// counted under its level and its user. Every line counts once.
    pub fn process_line(&mut self, line: &str) -> (r: LineStatus)
        requires
            old(self).wf(),
            old(self).result_spec().total_lines < usize::MAX,
        ensures
            final(self).wf(),
            counters_agree(final(self).result_spec(), final(self).events_spec()),
            final(self).user_counts_spec() == user_tally(final(self).events_spec()),
            r == line_status(line@),
            final(self).events_spec() == accept_line(old(self).events_spec(), line@),
            final(self).result_spec().total_lines == old(self).result_spec().total_lines + 1,
            final(self).result_spec().bad_lines == old(self).result_spec().bad_lines + if is_accepted(r) {
                0int
            } else {
                1int
            },
            final(self).result_spec().events == old(self).result_spec().events + if is_accepted(r) {
                1int
            } else {
                0int
            },
            forall|l: Level|
                #[trigger] final(self).result_spec().by_level.get(l) == old(self).result_spec().by_level.get(l)
                    + if is_accepted(r) && line_outcome(line@)->Ok_0.level == l {
                    1int
                } else {
                    0int
                },
            final(self).result_spec()@ == (SummaryView {
                total_lines: final(self).result_spec().total_lines,
                bad_lines: final(self).result_spec().bad_lines,
                events: final(self).result_spec().events,
                by_level: final(self).result_spec().by_level,
                ..old(self).result_spec()@
            }),
    {
        let ghost es = events_view(self.events@);
        if is_blank_line(line) {
            self.result.increment_total_lines();
            self.result.increment_bad_lines();
            return LineStatus::Blank;
        }
        match Event::parse(line) {
            Ok(event) => {
                let level = event.level;
                let user = event.user.clone();
                proof {
                    lemma_level_count_bounded(es, level);
                }
                self.events.push(event);
                proof {
                    assert(events_view(self.events@) =~= es.push(event@));
                    assert(events_view(self.events@).drop_last() =~= es);
                }
                self.increment_user_count(&user);
                self.result.increment_events();
                let ghost before = self.result.by_level;
                self.result.update_level_counts(level);
                proof {
                    assert(self.result.by_level.get(Level::Info) == before.get(Level::Info) + if level == Level::Info { 1int } else { 0int });
                    assert(self.result.by_level.get(Level::Warn) == before.get(Level::Warn) + if level == Level::Warn { 1int } else { 0int });
                    assert(self.result.by_level.get(Level::Error) == before.get(Level::Error) + if level == Level::Error { 1int } else { 0int });
                }
                self.result.increment_total_lines();
                proof {
                    let es2 = events_view(self.events@);
                    assert(es2 == es.push(event@));
                    lemma_level_count_push(es, event@, Level::Info);
                    lemma_level_count_push(es, event@, Level::Warn);
                    lemma_level_count_push(es, event@, Level::Error);
                    assert(self.result.by_level.info == level_count(es2, Level::Info));
                    assert(self.result.by_level.warn == level_count(es2, Level::Warn));
                    assert(self.result.by_level.error == level_count(es2, Level::Error));
                    assert(self.result.events == es2.len());
                }
                LineStatus::Accepted
            },
            Err(err) => {
                self.result.increment_bad_lines();
                self.result.increment_total_lines();
                LineStatus::Rejected(err)
            },
        }
    }

    /// Computes the top users, the 95th percentile and the outlier from the
    /// tally, completing the summary.
    pub fn finalize(&mut self)
        requires
            old(self).wf(),
        ensures
            final(self).wf(),
            counters_agree(final(self).result_spec(), final(self).events_spec()),
            final(self).events_spec() == old(self).events_spec(),
            final(self).user_counts_spec() == old(self).user_counts_spec(),
            final(self).result_spec().total_lines == old(self).result_spec().total_lines,
            final(self).result_spec().bad_lines == old(self).result_spec().bad_lines,
            final(self).result_spec().events == old(self).result_spec().events,
            final(self).result_spec().by_level == old(self).result_spec().by_level,
            final(self).result_spec()@.top_users == top_three(old(self).user_counts_spec()),
            final(self).result_spec()@ == summary_from(
                old(self).result_spec().total_lines as int,
                old(self).events_spec(),
            ),
    {
        proof {
            lemma_user_tally_distinct(events_view(self.events@));
        }
        self.result.compute_top_users(&self.user_counts);
        self.result.compute_p95_duration(self.events.as_slice());
        self.result.compute_outlier(self.events.as_slice());
    }

    /// The summary as it stands.
    pub fn get_result(&self) -> (r: &SummaryResult)
        ensures
            *r == self.result_spec(),
    {
        &self.result
    }
}

/// Runs the engine over `lines`, in order, and returns the finished summary.
pub fn summarize(lines: &Vec<String>) -> (r: SummaryResult)
    ensures
        r@ == summary_of(lines_view(lines@)),
{
    let ghost ls = lines_view(lines@);
    let mut app = App::new();
    let mut i: usize = 0;
    assert(ls.take(0) =~= Seq::<Seq<char>>::empty());
    while i < lines.len()
        invariant
            ls == lines_view(lines@),
            i <= lines@.len(),
            app.wf(),
            app.events_spec() == accepted(ls.take(i as int)),
            app.result_spec().total_lines == i,
        decreases lines@.len() - i,
    {
        app.process_line(lines[i].as_str());
        proof {
            assert(ls.take(i as int + 1).drop_last() =~= ls.take(i as int));
        }
        i = i + 1;
    }
    assert(ls.take(i as int) =~= ls);
    app.finalize();
    app.result
}

/// A run never accepts more events than it has lines.
pub proof fn lemma_accepted_len(lines: Seq<Seq<char>>)
    ensures
        accepted(lines).len() <= lines.len(),
    decreases lines.len(),
{
    if lines.len() > 0 {
        lemma_accepted_len(lines.drop_last());
    }
}

/// Every line of a run is either a bad line or an event:
/// `total_lines == bad_lines + events`.
pub proof fn lemma_lines_accounted(lines: Seq<Seq<char>>)
    requires
        lines.len() <= usize::MAX,
    ensures
        summary_of(lines).total_lines == summary_of(lines).bad_lines + summary_of(lines).events,
{
    lemma_accepted_len(lines);
}

/// The summary depends on the text of the lines alone: two runs over the same
/// lines give the same summary.
pub proof fn lemma_summary_deterministic(a: Seq<String>, b: Seq<String>)
    requires
        lines_view(a) == lines_view(b),
    ensures
        summary_of(lines_view(a)) == summary_of(lines_view(b)),
{
}

} // verus!
