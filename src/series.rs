//! Quote series: the points a provider returns for one symbol, and their
//! ordering by time.
use vstd::prelude::*;
use vstd::multiset::Multiset;
use vstd::seq_lib::lemma_multiset_commutative;

verus! {

/// One observation: a unix timestamp in seconds and the closing price.
pub struct Point<P> {
    pub timestamp: u64,
    pub close: P,
}

/// The points fetched for one symbol; empty when nothing could be fetched.
pub struct QuoteSeries<P> {
    pub symbol: String,
    pub points: Vec<Point<P>>,
}

/// What a provider call came back with.
pub enum FetchOutcome<P> {
    /// The provider answered with these points, in any order.
    Fetched(Vec<Point<P>>),
    /// The provider answered with an error or a response it could not read.
    Failed,
    /// No answer came before the deadline.
    TimedOut,
}

/// The points that a fetch outcome contributes to a series.
pub open spec fn outcome_points<P>(o: FetchOutcome<P>) -> Seq<Point<P>> {
    match o {
        FetchOutcome::Fetched(v) => v@,
        _ => Seq::empty(),
    }
}

/// Turns a fetch outcome into a series for `symbol`: whatever went wrong, the
/// result is a series, with no points.
pub fn series_from_fetch<P>(symbol: String, outcome: FetchOutcome<P>) -> (r: QuoteSeries<P>)
    ensures
        r.symbol@ == symbol@,
        r.points@ == outcome_points(outcome),
{
    match outcome {
        FetchOutcome::Fetched(points) => QuoteSeries { symbol, points },
        FetchOutcome::Failed => QuoteSeries { symbol, points: Vec::new() },
        FetchOutcome::TimedOut => QuoteSeries { symbol, points: Vec::new() },
    }
}

/// The index of the first point of `s` whose timestamp is not below `t`
/// (the length of `s` when there is none).
pub open spec fn first_not_before<P>(s: Seq<Point<P>>, t: u64) -> int
    decreases s.len(),
{
    if s.len() == 0 {
        0
    } else if s[0].timestamp >= t {
        0
    } else {
        1 + first_not_before(s.drop_first(), t)
    }
}

/// `x` placed in `s` just before the first point that is not earlier than it.
pub open spec fn insert_by_time<P>(s: Seq<Point<P>>, x: Point<P>) -> Seq<Point<P>> {
    let k = first_not_before(s, x.timestamp);
    s.take(k).push(x) + s.skip(k)
}

/// `s` ordered by timestamp; points with equal timestamps keep their order.
pub open spec fn sort_by_time<P>(s: Seq<Point<P>>) -> Seq<Point<P>>
    decreases s.len(),
{
    if s.len() == 0 {
        s
    } else {
        insert_by_time(sort_by_time(s.drop_first()), s[0])
    }
}

/// Timestamps never decrease along `s`.
pub open spec fn time_ordered<P>(s: Seq<Point<P>>) -> bool {
    forall|i: int, j: int| 0 <= i < j < s.len() ==> s[i].timestamp <= s[j].timestamp
}

proof fn lemma_first_not_before<P>(s: Seq<Point<P>>, t: u64, k: int)
    requires
        0 <= k <= s.len(),
        forall|j: int| 0 <= j < k ==> s[j].timestamp < t,
        k == s.len() || s[k].timestamp >= t,
    ensures
        first_not_before(s, t) == k,
    decreases s.len(),
{
    if s.len() > 0 && k > 0 {
        lemma_first_not_before(s.drop_first(), t, k - 1);
    }
}

proof fn lemma_first_not_before_bounds<P>(s: Seq<Point<P>>, t: u64)
    ensures
        0 <= first_not_before(s, t) <= s.len(),
        forall|j: int| 0 <= j < first_not_before(s, t) ==> s[j].timestamp < t,
        first_not_before(s, t) < s.len() ==> s[first_not_before(s, t)].timestamp >= t,
    decreases s.len(),
{
    if s.len() > 0 && s[0].timestamp < t {
        let r = s.drop_first();
        lemma_first_not_before_bounds(r, t);
        assert forall|j: int| 0 <= j < first_not_before(s, t) implies s[j].timestamp < t by {
            if j > 0 {
                assert(s[j] == r[j - 1]);
            }
        }
    }
}

proof fn lemma_insert_by_time<P>(s: Seq<Point<P>>, x: Point<P>)
    requires
        time_ordered(s),
    ensures
        time_ordered(insert_by_time(s, x)),
        insert_by_time(s, x).to_multiset() == s.to_multiset().insert(x),
        insert_by_time(s, x).len() == s.len() + 1,
{
    let k = first_not_before(s, x.timestamp);
    lemma_first_not_before_bounds(s, x.timestamp);
    let r = insert_by_time(s, x);
    assert forall|i: int, j: int| 0 <= i < j < r.len() implies r[i].timestamp
        <= r[j].timestamp by {
        if j < k {
            assert(r[i] == s[i] && r[j] == s[j]);
        } else if j == k {
            assert(r[i] == s[i]);
        } else if i < k {
            assert(r[i] == s[i] && r[j] == s[j - 1]);
        } else if i == k {
            assert(r[j] == s[j - 1]);
        } else {
            assert(r[i] == s[i - 1] && r[j] == s[j - 1]);
        }
    }
    lemma_multiset_commutative(s.take(k).push(x), s.skip(k));
    lemma_multiset_commutative(s.take(k), s.skip(k));
    assert(s.take(k) + s.skip(k) =~= s);
    assert(s.take(k).push(x).to_multiset() =~= s.take(k).to_multiset().insert(x)) by {
        broadcast use vstd::seq_lib::group_to_multiset_ensures;
    }
}

/// The ordered series is ordered by time and holds exactly the points it was
/// made from.
pub proof fn lemma_sort_by_time<P>(s: Seq<Point<P>>)
    ensures
        time_ordered(sort_by_time(s)),
        sort_by_time(s).to_multiset() == s.to_multiset(),
        sort_by_time(s).len() == s.len(),
    decreases s.len(),
{
    if s.len() == 0 {
        assert(s.to_multiset() =~= Multiset::empty()) by {
            broadcast use vstd::seq_lib::group_to_multiset_ensures;
        }
    } else {
        let r = s.drop_first();
        lemma_sort_by_time(r);
        lemma_insert_by_time(sort_by_time(r), s[0]);
        assert(s =~= seq![s[0]] + r);
        lemma_multiset_commutative(seq![s[0]], r);
        assert(seq![s[0]].to_multiset() =~= Multiset::empty().insert(s[0])) by {
            broadcast use vstd::seq_lib::group_to_multiset_ensures;
            assert(seq![s[0]] =~= Seq::<Point<P>>::empty().push(s[0]));
        }
        assert(Multiset::empty().insert(s[0]).add(r.to_multiset()) =~= r.to_multiset().insert(
            s[0],
        ));
    }
}

/// Orders `points` by timestamp, keeping the order of points with equal
/// timestamps.
pub fn sort_points<P>(points: Vec<Point<P>>) -> (r: Vec<Point<P>>)
    ensures
        r@ == sort_by_time(points@),
{
    let ghost s = points@;
    let mut rest = points;
    let mut out: Vec<Point<P>> = Vec::new();
    while rest.len() > 0
        invariant
            rest@ == s.take(rest@.len() as int),
            rest@.len() <= s.len(),
            out@ == sort_by_time(s.skip(rest@.len() as int)),
            time_ordered(out@),
        decreases rest@.len(),
    {
        let ghost n = rest@.len() as int;
        let x = rest.pop().unwrap();
        proof {
            lemma_sort_by_time(s.skip(n));
            assert(s.skip(n - 1).drop_first() =~= s.skip(n));
            assert(s.skip(n - 1)[0] == x);
            assert(rest@ =~= s.take(n - 1));
            lemma_insert_by_time(out@, x);
        }
        let t = x.timestamp;
        let mut k: usize = 0;
        while k < out.len() && out[k].timestamp < t
            invariant
                k <= out@.len(),
                forall|j: int| 0 <= j < k ==> out@[j].timestamp < t,
            decreases out@.len() - k,
        {
            k = k + 1;
        }
        proof {
            lemma_first_not_before(out@, t, k as int);
        }
        let ghost before = out@;
        out.insert(k, x);
        assert(out@ =~= insert_by_time(before, x));
    }
    assert(s.skip(0) =~= s);
    out
}

} // verus!
