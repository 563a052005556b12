//! The duration statistics of a run: nearest-rank 95th percentile and the
//! longest event.

use vstd::prelude::*;
use vstd::relations::{sorted_by, total_ordering};
use vstd::seq_lib::lemma_sorted_unique;
use crate::event::{Event, EventView, events_view};

verus! {

pub open spec fn duration_order() -> spec_fn(u64, u64) -> bool {
    |a: u64, b: u64| a <= b
}

/// The durations in ascending order.
pub open spec fn sorted_durations(ds: Seq<u64>) -> Seq<u64> {
    ds.sort_by(duration_order())
}

/// The 1-based nearest rank of the 95th percentile among `n` values:
/// `ceil(0.95 * n)`, and at least 1.
pub open spec fn nearest_rank(n: nat) -> int {
    if n == 0 {
        1
    } else {
        (95 * n as int + 99) / 100
    }
}

/// The 95th percentile by nearest rank; 0 when there are no values.
pub open spec fn p95_of(ds: Seq<u64>) -> u64 {
    if ds.len() == 0 {
        0
    } else {
        sorted_durations(ds)[nearest_rank(ds.len()) - 1]
    }
}

pub open spec fn durations(vs: Seq<EventView>) -> Seq<u64> {
    vs.map_values(|v: EventView| v.duration_ms)
}

/// `i` is the position of the first event of greatest duration.
pub open spec fn is_first_longest(ds: Seq<u64>, i: int) -> bool {
    &&& 0 <= i < ds.len()
    &&& forall|j: int| 0 <= j < ds.len() ==> ds[j] <= ds[i]
    &&& forall|j: int| 0 <= j < i ==> ds[j] < ds[i]
}

proof fn lemma_duration_order_total()
    ensures
        total_ordering(duration_order()),
{
}

/// The nearest rank, computed without overflow as `n - n / 20`.
pub fn rank_95(n: usize) -> (r: usize)
    requires
        n > 0,
    ensures
        r as int == nearest_rank(n as nat),
        1 <= r <= n,
{
    let r = n - n / 20;
    proof {
        let a = n as int / 20;
        let b = n as int % 20;
        assert(n as int == 20 * a + b);
        assert(95 * (n as int) + 99 == 100 * (19 * a + b) + (99 - 5 * b)) by (nonlinear_arith)
            requires
                n as int == 20 * a + b,
        ;
        assert((95 * (n as int) + 99) / 100 == 19 * a + b) by (nonlinear_arith)
            requires
                95 * (n as int) + 99 == 100 * (19 * a + b) + (99 - 5 * b),
                0 <= b < 20,
                a >= 0,
        ;
    }
    r
}

/// Relies on `slice::sort_unstable`: afterwards the elements are in ascending
/// order, and they are the same elements as before.
#[verifier::external_body]
fn sort_ascending(v: &mut Vec<u64>)
    ensures
        final(v)@.to_multiset() == old(v)@.to_multiset(),
        sorted_by(final(v)@, duration_order()),
{
    v.sort_unstable();
}

/// The 95th percentile of the durations by the nearest-rank method: the value
/// at 1-based position `ceil(0.95 * n)` once they are sorted; 0 for none.
pub fn p95(durations: &Vec<u64>) -> (r: u64)
    ensures
        r == p95_of(durations@),
{
    let n = durations.len();
    if n == 0 {
        return 0;
    }
    let mut sorted = durations.clone();
    sort_ascending(&mut sorted);
    proof {
        lemma_duration_order_total();
        durations@.lemma_sort_by_ensures(duration_order());
        lemma_sorted_unique(sorted@, sorted_durations(durations@), duration_order());
        vstd::seq_lib::to_multiset_len(sorted@);
        vstd::seq_lib::to_multiset_len(durations@);
    }
    let rank = rank_95(n);
    sorted[rank - 1]
}

/// The duration of each event, in order.
pub fn durations_of(events: &[Event]) -> (r: Vec<u64>)
    ensures
        r@ == durations(events_view(events@)),
{
    let mut r: Vec<u64> = Vec::new();
    let mut i: usize = 0;
    while i < events.len()
        invariant
            i <= events@.len(),
            r@ == durations(events_view(events@.take(i as int))),
        decreases events@.len() - i,
    {
        r.push(events[i].duration_ms);
        i = i + 1;
        assert(r@ =~= durations(events_view(events@.take(i as int))));
    }
    assert(events@.take(i as int) =~= events@);
    r
}

/// The position of the longest event, the first of them on a tie; `None` when
/// there are no events.
pub fn longest_index(events: &[Event]) -> (r: Option<usize>)
    ensures
        r.is_none() == (events@.len() == 0),
        r.is_some() ==> is_first_longest(durations(events_view(events@)), r.unwrap() as int),
{
    if events.len() == 0 {
        return None;
    }
    let ghost ds = durations(events_view(events@));
    let mut best: usize = 0;
    let mut i: usize = 1;
    while i < events.len()
        invariant
            ds == durations(events_view(events@)),
            ds.len() == events@.len(),
            1 <= i <= events@.len(),
            best < i,
            forall|j: int| 0 <= j < i ==> ds[j] <= ds[best as int],
            forall|j: int| 0 <= j < best ==> ds[j] < ds[best as int],
        decreases events@.len() - i,
    {
        if events[i].duration_ms > events[best].duration_ms {
            best = i;
        }
        i = i + 1;
    }
    Some(best)
}

/// With a single value the percentile is that value; with none it is 0.
pub proof fn lemma_p95_single(d: u64)
    ensures
        p95_of(seq![d]) == d,
        p95_of(Seq::empty()) == 0,
{
    let s = seq![d];
    lemma_duration_order_total();
    s.lemma_sort_by_ensures(duration_order());
    vstd::seq_lib::to_multiset_len(s);
    vstd::seq_lib::to_multiset_len(sorted_durations(s));
    let t = sorted_durations(s);
    vstd::seq_lib::to_multiset_contains(t, t[0]);
    vstd::seq_lib::to_multiset_contains(s, t[0]);
    assert(nearest_rank(1) == 1);
}

} // verus!
