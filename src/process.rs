//! The processor's decisions: which series yield a record, in what order their
//! points are read, and which windows the moving average runs over.
use crate::series::{sort_by_time, sort_points, Point, QuoteSeries};
use vstd::prelude::*;

verus! {

/// The number of closes that each moving-average value spans.
pub const SMA_WINDOW: usize = 30;

/// How many moving-average values a series of `n` closes has for window `w`:
/// none when `w <= 1` or `n < w`, else one per full window.
pub open spec fn sma_window_count(n: nat, w: nat) -> nat {
    if w <= 1 || n < w {
        0
    } else {
        (n - w + 1) as nat
    }
}

/// The series that a record is made from: `None` for a series with no points,
/// else the same series with its points in time order.
pub open spec fn prepared<P>(s: QuoteSeries<P>) -> Option<Seq<Point<P>>> {
    if s.points@.len() == 0 {
        None
    } else {
        Some(sort_by_time(s.points@))
    }
}

/// Readies a series for its record. A series with no points yields no record
/// (`None`); any other yields exactly one, read from its points in time order.
pub fn prepare<P>(series: QuoteSeries<P>) -> (r: Option<QuoteSeries<P>>)
    ensures
        r is Some <==> series.points@.len() > 0,
        r matches Some(o) ==> o.symbol@ == series.symbol@ && Some(o.points@) == prepared(series),
{
    if series.points.len() == 0 {
        None
    } else {
        let QuoteSeries { symbol, points } = series;
        let ordered = sort_points(points);
        proof {
            crate::series::lemma_sort_by_time(points@);
        }
        Some(QuoteSeries { symbol, points: ordered })
    }
}

/// The timestamp of the last point: the time a record is stamped with.
pub fn latest_timestamp<P>(points: &Vec<Point<P>>) -> (r: u64)
    requires
        points@.len() > 0,
    ensures
        r == points@.last().timestamp,
{
    points[points.len() - 1].timestamp
}

/// The half-open index ranges `[i, i + w)` of every full window of `w` closes
/// in a series of `n`, in order; none when `w <= 1` or `n < w`.
pub fn sma_windows(n: usize, w: usize) -> (r: Vec<(usize, usize)>)
    ensures
        r@.len() == sma_window_count(n as nat, w as nat),
        forall|i: int| 0 <= i < r@.len() ==> #[trigger] r@[i] == (i as usize, (i + w) as usize),
{
    let mut out: Vec<(usize, usize)> = Vec::new();
    if w <= 1 || n < w {
        return out;
    }
    let count = n - w + 1;
    let mut i: usize = 0;
    while i < count
        invariant
            count == n - w + 1,
            w <= n,
            i <= count,
            out@.len() == i,
            forall|j: int| 0 <= j < i ==> #[trigger] out@[j] == (j as usize, (j + w) as usize),
        decreases count - i,
    {
        out.push((i, i + w));
        i = i + 1;
    }
    out
}

/// The last full window of `w` closes in a series of `n`, which the record's
/// moving average is taken over; `None` when there is no full window.
pub fn last_sma_window(n: usize, w: usize) -> (r: Option<(usize, usize)>)
    ensures
        r is None <==> sma_window_count(n as nat, w as nat) == 0,
        r matches Some(p) ==> p.0 == n - w && p.1 == n,
{
    if w <= 1 || n < w {
        None
    } else {
        Some((n - w, n))
    }
}

/// The figures computed over the closes of a series, in time order.
pub struct SeriesFigures<P> {
    /// `(last - first) / first`, with a first close of zero read as one.
    pub pct_change: P,
    pub period_min: P,
    pub period_max: P,
    /// The moving average over the last full window, zero when there is none.
    pub last_sma: P,
}

/// What the processor publishes for one series.
pub struct PerformanceIndicators<P> {
    pub symbol: String,
    /// The unix timestamp of the latest point.
    pub timestamp: u64,
    /// The latest close.
    pub price: P,
    pub pct_change: P,
    pub period_min: P,
    pub period_max: P,
    pub last_sma: P,
}

/// The record of a series in time order: stamped with its latest point, priced
/// at that point's close, carrying `figures`.
pub fn indicators<P: Copy>(series: &QuoteSeries<P>, figures: SeriesFigures<P>) -> (r:
    PerformanceIndicators<P>)
    requires
        series.points@.len() > 0,
    ensures
        r.symbol@ == series.symbol@,
        r.timestamp == series.points@.last().timestamp,
        r.price == series.points@.last().close,
        r.pct_change == figures.pct_change,
        r.period_min == figures.period_min,
        r.period_max == figures.period_max,
        r.last_sma == figures.last_sma,
{
    let last = series.points.len() - 1;
    PerformanceIndicators {
        symbol: series.symbol.clone(),
        timestamp: latest_timestamp(&series.points),
        price: series.points[last].close,
        pct_change: figures.pct_change,
        period_min: figures.period_min,
        period_max: figures.period_max,
        last_sma: figures.last_sma,
    }
}

/// A window wider than the series gives no moving-average value at all.
pub proof fn lemma_wide_window_is_empty(n: nat, w: nat)
    requires
        w > n,
    ensures
        sma_window_count(n, w) == 0,
{
}

} // verus!
