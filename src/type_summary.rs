//! A plain tally of loosely structured log records by type and by level.

use vstd::prelude::*;
use vstd::relations::sorted_by;
use vstd::seq_lib::to_multiset_insert;
use crate::text::text_eq;

verus! {

/// A log record whose fields may each be absent.
#[derive(Debug, Clone)]
pub struct LogRecord {
    pub event_type: Option<String>,
    pub timestamp: Option<String>,
    pub level: Option<String>,
    pub message: Option<String>,
}

/// A name and how often it was seen.
#[derive(Debug, Clone)]
pub struct NameCount {
    pub name: String,
    pub count: usize,
}

impl View for NameCount {
    type V = (Seq<char>, usize);

    open spec fn view(&self) -> (Seq<char>, usize) {
        (self.name@, self.count)
    }
}

pub open spec fn names_view(v: Seq<NameCount>) -> Seq<(Seq<char>, usize)> {
    v.map_values(|e: NameCount| e@)
}

/// No name is listed twice.
pub open spec fn distinct_names(v: Seq<(Seq<char>, usize)>) -> bool {
    forall|i: int, j: int| 0 <= i < j < v.len() ==> v[i].0 != v[j].0
}

/// How often `n` was seen: its listed count, or 0 when it is not listed.
pub open spec fn count_of(v: Seq<(Seq<char>, usize)>, n: Seq<char>) -> nat {
    if exists|i: int| 0 <= i < v.len() && v[i].0 == n {
        v[choose|i: int| 0 <= i < v.len() && v[i].0 == n].1 as nat
    } else {
        0
    }
}

proof fn lemma_count_at(v: Seq<(Seq<char>, usize)>, i: int)
    requires
        distinct_names(v),
        0 <= i < v.len(),
    ensures
        count_of(v, v[i].0) == v[i].1,
{
    let j = choose|j: int| 0 <= j < v.len() && v[j].0 == v[i].0;
    assert(j == i);
}

/// Adds one sighting of `name` to `counts`.
fn bump(counts: &mut Vec<NameCount>, name: &String, Ghost(bound): Ghost<nat>)
    requires
        distinct_names(names_view(old(counts)@)),
        forall|n: Seq<char>| count_of(names_view(old(counts)@), n) < bound,
        bound <= usize::MAX,
    ensures
        distinct_names(names_view(final(counts)@)),
        count_of(names_view(final(counts)@), name@) == count_of(names_view(old(counts)@), name@) + 1,
        forall|n: Seq<char>|
            n != name@ ==> count_of(names_view(final(counts)@), n) == count_of(
                names_view(old(counts)@),
                n,
            ),
{
    let ghost v = names_view(counts@);
    let n = counts.len();
    let mut k: usize = 0;
    while k < n && !(counts[k].name == *name)
        invariant
            n == counts@.len(),
            k <= n,
            v == names_view(counts@),
            forall|j: int| 0 <= j < k ==> v[j].0 != name@,
        decreases n - k,
    {
        k = k + 1;
    }
    if k < n {
        let c = counts[k].count;
        proof {
            assert(v[k as int].0 == name@);
            lemma_count_at(v, k as int);
        }
        counts.set(k, NameCount { name: name.clone(), count: c + 1 });
        let ghost w = names_view(counts@);
        proof {
            assert forall|i: int, j: int| 0 <= i < j < w.len() implies w[i].0 != w[j].0 by {
                assert(v[i].0 != v[j].0);
            }
            lemma_count_at(w, k as int);
            assert forall|m: Seq<char>| m != name@ implies count_of(w, m) == count_of(v, m) by {
                if exists|i: int| 0 <= i < v.len() && v[i].0 == m {
                    let i = choose|i: int| 0 <= i < v.len() && v[i].0 == m;
                    lemma_count_at(v, i);
                    lemma_count_at(w, i);
                } else {
                    assert forall|i: int| 0 <= i < w.len() implies w[i].0 != m by {
                        assert(w[i].0 == v[i].0);
                    }
                }
            }
        }
    } else {
        counts.push(NameCount { name: name.clone(), count: 1 });
        let ghost w = names_view(counts@);
        proof {
            assert forall|i: int, j: int| 0 <= i < j < w.len() implies w[i].0 != w[j].0 by {
                if j < v.len() {
                    assert(v[i].0 != v[j].0);
                } else {
                    assert(w[i] == v[i]);
                }
            }
            lemma_count_at(w, n as int);
            assert forall|m: Seq<char>| m != name@ implies count_of(w, m) == count_of(v, m) by {
                if exists|i: int| 0 <= i < v.len() && v[i].0 == m {
                    let i = choose|i: int| 0 <= i < v.len() && v[i].0 == m;
                    lemma_count_at(v, i);
                    assert(w[i] == v[i]);
                    lemma_count_at(w, i);
                } else {
                    assert forall|i: int| 0 <= i < w.len() implies w[i].0 != m by {
                        if i < v.len() {
                            assert(w[i] == v[i]);
                        }
                    }
                }
            }
        }
    }
}

/// Counts of records overall, by type and by level.
pub struct EventSummary {
    total_events: usize,
    events_by_type: Vec<NameCount>,
    events_by_level: Vec<NameCount>,
}

impl EventSummary {
    pub closed spec fn total_spec(&self) -> nat {
        self.total_events as nat
    }

    /// Each type seen, with its count.
    pub closed spec fn types_spec(&self) -> Seq<(Seq<char>, usize)> {
        names_view(self.events_by_type@)
    }

    /// Each level seen, with its count.
    pub closed spec fn levels_spec(&self) -> Seq<(Seq<char>, usize)> {
        names_view(self.events_by_level@)
    }

    /// How many records had type `t`.
    pub closed spec fn type_count_spec(&self, t: Seq<char>) -> nat {
        count_of(names_view(self.events_by_type@), t)
    }

    /// How many records had level `l`.
    pub closed spec fn level_count_spec(&self, l: Seq<char>) -> nat {
        count_of(names_view(self.events_by_level@), l)
    }

    /// Each name is listed once and no count exceeds the number of records.
    pub closed spec fn wf(&self) -> bool {
        &&& distinct_names(names_view(self.events_by_type@))
        &&& distinct_names(names_view(self.events_by_level@))
        &&& forall|n: Seq<char>| self.type_count_spec(n) <= self.total_events
        &&& forall|n: Seq<char>| self.level_count_spec(n) <= self.total_events
    }

    /// An empty tally.
    pub fn new() -> (r: EventSummary)
        ensures
            r.wf(),
            r.total_spec() == 0,
            r.types_spec().len() == 0,
            r.levels_spec().len() == 0,
            forall|n: Seq<char>| r.type_count_spec(n) == 0 && r.level_count_spec(n) == 0,
    {
        EventSummary { total_events: 0, events_by_type: Vec::new(), events_by_level: Vec::new() }
    }

    /// Counts one record, under its type and its level where it has them.
    pub fn add_event(&mut self, record: &LogRecord)
        requires
            old(self).wf(),
            old(self).total_spec() < usize::MAX,
        ensures
            final(self).wf(),
            final(self).total_spec() == old(self).total_spec() + 1,
            forall|n: Seq<char>|
                #[trigger] final(self).type_count_spec(n) == old(self).type_count_spec(n) + if record.event_type is Some
                    && record.event_type->Some_0@ == n {
                    1nat
                } else {
                    0nat
                },
            forall|n: Seq<char>|
                #[trigger] final(self).level_count_spec(n) == old(self).level_count_spec(n) + if record.level is Some
                    && record.level->Some_0@ == n {
                    1nat
                } else {
                    0nat
                },
    {
        let ghost bound = (self.total_events + 1) as nat;
        proof {
            assert forall|n: Seq<char>| count_of(names_view(self.events_by_type@), n) < bound by {
                assert(self.type_count_spec(n) <= self.total_events);
            }
            assert forall|n: Seq<char>| count_of(names_view(self.events_by_level@), n) < bound by {
                assert(self.level_count_spec(n) <= self.total_events);
            }
        }
        let ghost old_self = *self;
        if let Some(t) = &record.event_type {
            bump(&mut self.events_by_type, t, Ghost(bound));
        }
        if let Some(l) = &record.level {
            bump(&mut self.events_by_level, l, Ghost(bound));
        }
        self.total_events = self.total_events + 1;
        proof {
            assert forall|n: Seq<char>| self.type_count_spec(n) <= self.total_events by {
                assert(old_self.type_count_spec(n) <= old_self.total_events);
            }
            assert forall|n: Seq<char>| self.level_count_spec(n) <= self.total_events by {
                assert(old_self.level_count_spec(n) <= old_self.total_events);
            }
        }
    }

    pub fn total_events(&self) -> (r: usize)
        ensures
            r == self.total_spec(),
    {
        self.total_events
    }

    /// How many records had type `t`.
    pub fn type_count(&self, t: &str) -> (r: usize)
        requires
            self.wf(),
        ensures
            r == self.type_count_spec(t@),
    {
        lookup(&self.events_by_type, t)
    }

    /// How many records had level `l`.
    pub fn level_count(&self, l: &str) -> (r: usize)
        requires
            self.wf(),
        ensures
            r == self.level_count_spec(l@),
    {
        lookup(&self.events_by_level, l)
    }

    /// The types with their counts, highest count first.
    pub fn types_by_count(&self) -> (r: Vec<NameCount>)
        ensures
            names_view(r@).to_multiset() == self.types_spec().to_multiset(),
            sorted_by(names_view(r@), count_desc()),
    {
        by_count(&self.events_by_type)
    }

    /// The levels with their counts, highest count first.
    pub fn levels_by_count(&self) -> (r: Vec<NameCount>)
        ensures
            names_view(r@).to_multiset() == self.levels_spec().to_multiset(),
            sorted_by(names_view(r@), count_desc()),
    {
        by_count(&self.events_by_level)
    }
}

fn lookup(counts: &Vec<NameCount>, name: &str) -> (r: usize)
    requires
        distinct_names(names_view(counts@)),
    ensures
        r == count_of(names_view(counts@), name@),
{
    let ghost v = names_view(counts@);
    let mut k: usize = 0;
    while k < counts.len()
        invariant
            k <= counts@.len(),
            v == names_view(counts@),
            distinct_names(v),
            forall|j: int| 0 <= j < k ==> v[j].0 != name@,
        decreases counts@.len() - k,
    {
        if text_eq(counts[k].name.as_str(), name) {
            proof {
                lemma_count_at(v, k as int);
            }
            return counts[k].count;
        }
        k = k + 1;
    }
    0
}

/// `a` comes no later than `b`: its count is at least as high.
pub open spec fn count_desc() -> spec_fn((Seq<char>, usize), (Seq<char>, usize)) -> bool {
    |a: (Seq<char>, usize), b: (Seq<char>, usize)| a.1 >= b.1
}

/// The entries ordered by count, highest first.
pub fn by_count(counts: &Vec<NameCount>) -> (r: Vec<NameCount>)
    ensures
        names_view(r@).to_multiset() == names_view(counts@).to_multiset(),
        sorted_by(names_view(r@), count_desc()),
{
    let ghost s = names_view(counts@);
    let mut out: Vec<NameCount> = Vec::new();
    let mut i: usize = 0;
    assert(s.take(0) =~= names_view(out@));
    while i < counts.len()
        invariant
            s == names_view(counts@),
            i <= counts@.len(),
            names_view(out@).to_multiset() == s.take(i as int).to_multiset(),
            sorted_by(names_view(out@), count_desc()),
        decreases counts@.len() - i,
    {
        let c = &counts[i];
        let mut p: usize = 0;
        while p < out.len() && out[p].count >= c.count
            invariant
                p <= out@.len(),
                forall|j: int| 0 <= j < p ==> out@[j].count >= c.count,
            decreases out@.len() - p,
        {
            p = p + 1;
        }
        let ghost before = names_view(out@);
        out.insert(p, NameCount { name: c.name.clone(), count: c.count });
        proof {
            let after = names_view(out@);
            assert(after =~= before.insert(p as int, c@));
            to_multiset_insert(before, p as int, c@);
            vstd::seq_lib::to_multiset_build(s.take(i as int), c@);
            assert(s.take(i as int + 1) =~= s.take(i as int).push(c@));
            assert forall|a: int, b: int| 0 <= a < b < after.len() implies #[trigger] count_desc()(after[a], after[b]) by {
                if b < p {
                } else if b == p {
                } else if a < p {
                    assert(after[b] == before[b - 1]);
                } else if a == p {
                    assert(after[b] == before[b - 1]);
                    if b - 1 > p {
                        assert(count_desc()(before[p as int], before[b - 1]));
                    }
                } else {
                    assert(after[a] == before[a - 1] && after[b] == before[b - 1]);
                    assert(count_desc()(before[a - 1], before[b - 1]));
                }
            }
        }
        i = i + 1;
    }
    assert(s.take(i as int) =~= s);
    out
}

} // verus!
