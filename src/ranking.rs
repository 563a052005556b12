//! Selection of the three most active users.

use vstd::prelude::*;
use vstd::relations::{sorted_by, total_ordering};
use vstd::seq_lib::{lemma_sorted_unique, to_multiset_build, to_multiset_insert};
use crate::text::{
    text_le,
    text_lt,
    text_le_exec,
    lemma_text_le_reflexive,
    lemma_text_le_antisymmetric,
    lemma_text_le_transitive,
    lemma_text_le_total,
};

verus! {

/// How many users the ranking keeps.
pub const TOP_USERS: usize = 3;

/// One user and the number of events attributed to them.
#[derive(Debug, Clone)]
pub struct UserCount {
    pub user: String,
    pub count: usize,
}

impl View for UserCount {
    type V = (Seq<char>, usize);

    open spec fn view(&self) -> (Seq<char>, usize) {
        (self.user@, self.count)
    }
}

/// `a` ranks no lower than `b`: a higher count first, equal counts by user name.
pub open spec fn rank_le(a: (Seq<char>, usize), b: (Seq<char>, usize)) -> bool {
    a.1 > b.1 || (a.1 == b.1 && text_le(a.0, b.0))
}

pub open spec fn rank_order() -> spec_fn((Seq<char>, usize), (Seq<char>, usize)) -> bool {
    |a: (Seq<char>, usize), b: (Seq<char>, usize)| rank_le(a, b)
}

/// The entries in rank order.
pub open spec fn ranking(s: Seq<(Seq<char>, usize)>) -> Seq<(Seq<char>, usize)> {
    s.sort_by(rank_order())
}

/// The best ranked entries: all of them when there are fewer than three.
pub open spec fn top_three(s: Seq<(Seq<char>, usize)>) -> Seq<(Seq<char>, usize)> {
    ranking(s).take(if s.len() < TOP_USERS { s.len() as int } else { TOP_USERS as int })
}

/// No user is listed twice, as in a mapping from users to counts.
pub open spec fn distinct_users(s: Seq<(Seq<char>, usize)>) -> bool {
    forall|i: int, j: int| 0 <= i < j < s.len() ==> s[i].0 != s[j].0
}

/// `a` ranks strictly above `b`: a higher count, or an equal count and a name
/// that sorts strictly first.
pub open spec fn ranks_strictly_above(a: (Seq<char>, usize), b: (Seq<char>, usize)) -> bool {
    a.1 > b.1 || (a.1 == b.1 && text_lt(a.0, b.0))
}

pub open spec fn counts_view(v: Seq<UserCount>) -> Seq<(Seq<char>, usize)> {
    v.map_values(|u: UserCount| u@)
}

/// The rank order is a total order.
pub proof fn lemma_rank_order_total()
    ensures
        total_ordering(rank_order()),
{
    assert forall|a: (Seq<char>, usize)| #[trigger] rank_order()(a, a) by {
        lemma_text_le_reflexive(a.0);
    }
    assert forall|a: (Seq<char>, usize), b: (Seq<char>, usize)|
        #[trigger] rank_order()(a, b) && #[trigger] rank_order()(b, a) implies a == b by {
        lemma_text_le_antisymmetric(a.0, b.0);
    }
    assert forall|a: (Seq<char>, usize), b: (Seq<char>, usize), c: (Seq<char>, usize)|
        #[trigger] rank_order()(a, b) && #[trigger] rank_order()(b, c) implies rank_order()(
        a,
        c,
    ) by {
        if a.1 == b.1 && b.1 == c.1 {
            lemma_text_le_transitive(a.0, b.0, c.0);
        }
    }
    assert forall|a: (Seq<char>, usize), b: (Seq<char>, usize)|
        #[trigger] rank_order()(a, b) || #[trigger] rank_order()(b, a) by {
        lemma_text_le_total(a.0, b.0);
    }
}

/// The first position at which `x` may go into `t` and keep it ordered by
/// `le`, after every element that `x` does not precede.
pub open spec fn insert_pos<A>(t: Seq<A>, x: A, le: spec_fn(A, A) -> bool) -> int
    decreases t.len(),
{
    if t.len() == 0 {
        0
    } else if !le(t[0], x) {
        0
    } else {
        1 + insert_pos(t.drop_first(), x, le)
    }
}

pub proof fn lemma_insert_pos<A>(t: Seq<A>, x: A, le: spec_fn(A, A) -> bool)
    ensures
        0 <= insert_pos(t, x, le) <= t.len(),
        forall|j: int| 0 <= j < insert_pos(t, x, le) ==> le(#[trigger] t[j], x),
        insert_pos(t, x, le) < t.len() ==> !le(t[insert_pos(t, x, le)], x),
    decreases t.len(),
{
    if t.len() > 0 && le(t[0], x) {
        lemma_insert_pos(t.drop_first(), x, le);
        assert forall|j: int| 0 <= j < insert_pos(t, x, le) implies le(#[trigger] t[j], x) by {
            if j > 0 {
                assert(t[j] == t.drop_first()[j - 1]);
            }
        }
    }
}

/// Putting `x` at its insertion position keeps a sorted sequence sorted, and
/// gives the sorted form of the elements with `x` added.
pub proof fn lemma_insert_sorted<A>(t: Seq<A>, x: A, le: spec_fn(A, A) -> bool)
    requires
        total_ordering(le),
        sorted_by(t, le),
    ensures
        sorted_by(t.insert(insert_pos(t, x, le), x), le),
        t.insert(insert_pos(t, x, le), x).to_multiset() == t.to_multiset().insert(x),
{
    let p = insert_pos(t, x, le);
    lemma_insert_pos(t, x, le);
    let u = t.insert(p, x);
    assert forall|i: int, j: int| 0 <= i < j < u.len() implies #[trigger] le(u[i], u[j]) by {
        if j < p {
        } else if j == p {
        } else if i < p {
            assert(u[j] == t[j - 1]);
        } else if i == p {
            assert(u[j] == t[j - 1]);
            assert(le(x, t[p]));
            if j - 1 > p {
                assert(le(t[p], t[j - 1]));
            }
        } else {
            assert(u[i] == t[i - 1] && u[j] == t[j - 1]);
        }
    }
    to_multiset_insert(t, p, x);
}

/// Whether `a` ranks strictly above `b`.
pub fn ranks_above(a: &UserCount, b: &UserCount) -> (r: bool)
    ensures
        r == !rank_le(b@, a@),
{
    a.count > b.count || (a.count == b.count && !text_le_exec(b.user.as_str(), a.user.as_str()))
}

/// The (at most) three best ranked users: higher counts first, equal counts in
/// ascending order of user name.
pub fn top_users(counts: &Vec<UserCount>) -> (r: Vec<UserCount>)
    requires
        distinct_users(counts_view(counts@)),
    ensures
        counts_view(r@) == top_three(counts_view(counts@)),
        forall|i: int, j: int|
            0 <= i < j < r@.len() ==> ranks_strictly_above(
                #[trigger] counts_view(r@)[i],
                #[trigger] counts_view(r@)[j],
            ),
{
    proof {
        lemma_top_three_strict(counts_view(counts@));
    }
    let ghost le = rank_order();
    let ghost s = counts_view(counts@);
    proof {
        lemma_rank_order_total();
        s.take(0).lemma_sort_by_ensures(le);
        assert(s.take(0) =~= Seq::<(Seq<char>, usize)>::empty());
        lemma_sorted_unique(ranking(s.take(0)), Seq::<(Seq<char>, usize)>::empty(), le);
    }
    let mut top: Vec<UserCount> = Vec::new();
    assert(counts_view(top@) =~= ranking(s.take(0)).take(0));
    let n = counts.len();
    let mut i: usize = 0;
    while i < n
        invariant
            n == counts@.len(),
            s == counts_view(counts@),
            le == rank_order(),
            total_ordering(le),
            i <= n,
            counts_view(top@) == ranking(s.take(i as int)).take(
                if i < TOP_USERS { i as int } else { TOP_USERS as int },
            ),
        decreases n - i,
    {
        let c = &counts[i];
        let ghost t = ranking(s.take(i as int));
        let ghost x = s[i as int];
        proof {
            s.take(i as int).lemma_sort_by_ensures(le);
            to_multiset_build(s.take(i as int), x);
            assert(s.take(i as int + 1) =~= s.take(i as int).push(x));
            s.take(i as int + 1).lemma_sort_by_ensures(le);
            lemma_insert_sorted(t, x, le);
            lemma_sorted_unique(
                t.insert(insert_pos(t, x, le), x),
                ranking(s.take(i as int + 1)),
                le,
            );
            lemma_insert_pos(t, x, le);
            assert(t.len() == i) by {
                vstd::seq_lib::to_multiset_len(s.take(i as int));
                vstd::seq_lib::to_multiset_len(t);
            }
        }
        let mut p: usize = 0;
        while p < top.len() && !ranks_above(c, &top[p])
            invariant
                p <= top@.len(),
                forall|j: int| 0 <= j < p ==> rank_le(#[trigger] counts_view(top@)[j], x),
                x == c@,
            decreases top@.len() - p,
        {
            p = p + 1;
        }
        let ghost old_top = counts_view(top@);
        let ghost q = insert_pos(t, x, le);
        let ghost m: int = if i < TOP_USERS { i as int } else { TOP_USERS as int };
        let ghost m1: int = if i + 1 < TOP_USERS { i as int + 1 } else { TOP_USERS as int };
        let ghost t1 = t.insert(q, x);
        proof {
            assert(old_top == t.take(m));
            assert(forall|j: int| 0 <= j < old_top.len() ==> old_top[j] == t[j]);
            if p < top@.len() {
                assert(!rank_le(old_top[p as int], x));
                if q < p {
                    assert(rank_le(old_top[q], x));
                    assert(old_top[q] == t[q]);
                }
                if q > p {
                    assert(rank_le(t[p as int], x));
                }
                assert(q == p);
            } else {
                assert(q >= p) by {
                    if q < p {
                        assert(rank_le(old_top[q], x));
                        assert(old_top[q] == t[q]);
                    }
                }
            }
            assert(ranking(s.take(i as int + 1)) == t1);
        }
        if p < TOP_USERS {
            top.insert(p, UserCount { user: c.user.clone(), count: c.count });
            proof {
                assert(counts_view(top@) =~= old_top.insert(p as int, x));
                if i < TOP_USERS {
                    assert(old_top =~= t);
                    assert(counts_view(top@) =~= t1.take(m1));
                }
            }
            if top.len() > TOP_USERS {
                top.pop();
            }
            proof {
                assert(counts_view(top@) =~= t1.take(m1));
            }
        } else {
            proof {
                assert(counts_view(top@) =~= t1.take(TOP_USERS as int));
            }
        }
        i = i + 1;
    }
    proof {
        assert(s.take(n as int) =~= s);
        assert(counts_view(top@) == top_three(s));
        assert(counts_view(top@).len() == top@.len());
    }
    top
}

/// The top three of a mapping from users to counts hold `min(3, n)` entries,
/// in strict rank order (higher count first, equal counts by ascending user
/// name), each an entry of the mapping with its count unchanged.
pub proof fn lemma_top_three_properties(s: Seq<(Seq<char>, usize)>)
    requires
        distinct_users(s),
    ensures
        top_three(s).len() == if s.len() < TOP_USERS { s.len() } else { TOP_USERS as nat },
        forall|i: int, j: int|
            0 <= i < j < top_three(s).len() ==> ranks_strictly_above(
                #[trigger] top_three(s)[i],
                #[trigger] top_three(s)[j],
            ),
        forall|i: int| 0 <= i < top_three(s).len() ==> s.contains(#[trigger] top_three(s)[i]),
{
    lemma_top_three_strict(s);
    lemma_rank_order_total();
    s.lemma_sort_by_ensures(rank_order());
    let t = ranking(s);
    vstd::seq_lib::to_multiset_len(s);
    vstd::seq_lib::to_multiset_len(t);
    assert forall|i: int| 0 <= i < top_three(s).len() implies s.contains(#[trigger] top_three(s)[i]) by {
        assert(top_three(s)[i] == t[i]);
        vstd::seq_lib::to_multiset_contains(t, t[i]);
        vstd::seq_lib::to_multiset_contains(s, t[i]);
    }
}

/// When no user is listed twice, the top three are in strict rank order, so
/// no user appears twice among them either.
pub proof fn lemma_top_three_strict(s: Seq<(Seq<char>, usize)>)
    requires
        distinct_users(s),
    ensures
        forall|i: int, j: int|
            0 <= i < j < top_three(s).len() ==> ranks_strictly_above(
                #[trigger] top_three(s)[i],
                #[trigger] top_three(s)[j],
            ),
{
    lemma_rank_order_total();
    s.lemma_sort_by_ensures(rank_order());
    let t = ranking(s);
    vstd::seq_lib::to_multiset_len(s);
    vstd::seq_lib::to_multiset_len(t);
    assert(s.no_duplicates());
    s.lemma_multiset_has_no_duplicates();
    t.lemma_multiset_has_no_duplicates_conv();
    assert forall|i: int, j: int|
        0 <= i < j < top_three(s).len() implies ranks_strictly_above(
        #[trigger] top_three(s)[i],
        #[trigger] top_three(s)[j],
    ) by {
        let a = t[i];
        let b = t[j];
        assert(top_three(s)[i] == a && top_three(s)[j] == b);
        assert(rank_order()(a, b));
        assert(a != b);
        vstd::seq_lib::to_multiset_contains(t, a);
        vstd::seq_lib::to_multiset_contains(s, a);
        vstd::seq_lib::to_multiset_contains(t, b);
        vstd::seq_lib::to_multiset_contains(s, b);
        let ia = choose|k: int| 0 <= k < s.len() && s[k] == a;
        let ib = choose|k: int| 0 <= k < s.len() && s[k] == b;
        assert(ia != ib);
        assert(a.0 != b.0);
        if a.1 == b.1 {
            if text_le(b.0, a.0) {
                lemma_text_le_antisymmetric(a.0, b.0);
            }
        }
    }
}

/// The top three depend only on which entries there are, not on the order in
/// which they are listed.
pub proof fn lemma_top_three_order_independent(
    s1: Seq<(Seq<char>, usize)>,
    s2: Seq<(Seq<char>, usize)>,
)
    requires
        s1.to_multiset() == s2.to_multiset(),
    ensures
        top_three(s1) == top_three(s2),
{
    lemma_rank_order_total();
    s1.lemma_sort_by_ensures(rank_order());
    s2.lemma_sort_by_ensures(rank_order());
    lemma_sorted_unique(ranking(s1), ranking(s2), rank_order());
    vstd::seq_lib::to_multiset_len(s1);
    vstd::seq_lib::to_multiset_len(s2);
}

} // verus!
