//! Configuration and the scheduler: which symbols are tracked, from when, and
//! the fetch requests that each tick sends out.
use vstd::prelude::*;

verus! {

/// One fetch of a symbol's series over `[from, to]`, in unix seconds.
pub struct FetchRequest {
    pub symbol: String,
    pub from: i64,
    pub to: i64,
}

/// Why the configuration could not be read.
#[derive(PartialEq, Eq, Structural, Debug, Clone, Copy)]
pub enum ConfigError {
    /// The start instant is not a date-time that could be read.
    BadFrom,
}

/// The instant (whole unix seconds) that the date-time text `s` denotes, if any.
pub uninterp spec fn utc_seconds_of(s: Seq<char>) -> Option<i64>;

/// Relies on chrono's `FromStr` for `DateTime<Utc>`, a relaxed RFC 3339
/// reader, and on `DateTime::timestamp`: the instant's whole seconds since the
/// epoch. The outcome depends on the text alone.
#[verifier::external_body]
fn utc_seconds(s: &str) -> (r: Option<i64>)
    ensures
        r == utc_seconds_of(s@),
{
    match s.parse::<chrono::DateTime<chrono::Utc>>() {
        Ok(d) => Some(d.timestamp()),
        Err(_) => None,
    }
}

/// Reads the start instant of every fetch.
pub fn parse_from(s: &str) -> (r: Result<i64, ConfigError>)
    ensures
        r == match utc_seconds_of(s@) {
            Some(t) => Ok::<i64, ConfigError>(t),
            None => Err(ConfigError::BadFrom),
        },
{
    match utc_seconds(s) {
        Some(t) => Ok(t),
        None => Err(ConfigError::BadFrom),
    }
}

/// The pieces of `s` between the separators `sep`, in order. There is always
/// one more piece than there are separators; pieces may be empty.
pub open spec fn split_on(s: Seq<char>, sep: char) -> Seq<Seq<char>>
    decreases s.len(),
{
    if s.len() == 0 {
        seq![Seq::<char>::empty()]
    } else {
        let rest = split_on(s.drop_last(), sep);
        if s.last() == sep {
            rest.push(Seq::<char>::empty())
        } else {
            rest.update(rest.len() - 1, rest.last().push(s.last()))
        }
    }
}

proof fn lemma_split_on_nonempty(s: Seq<char>, sep: char)
    ensures
        split_on(s, sep).len() >= 1,
    decreases s.len(),
{
    if s.len() > 0 {
        lemma_split_on_nonempty(s.drop_last(), sep);
    }
}

/// The views of a list of strings.
pub open spec fn views(v: Seq<String>) -> Seq<Seq<char>> {
    v.map_values(|x: String| x@)
}

/// The tracked symbols named by a comma-separated list, in order.
pub fn parse_symbols(s: &str) -> (r: Vec<String>)
    ensures
        views(r@) == split_on(s@, ','),
{
    let n = s.unicode_len();
    let mut out: Vec<String> = Vec::new();
    let mut start: usize = 0;
    let mut i: usize = 0;
    assert(s@.take(0) =~= Seq::<char>::empty());
    assert(s@.subrange(0, 0) =~= Seq::<char>::empty());
    assert(views(out@).push(s@.subrange(0, 0)) =~= split_on(s@.take(0), ','));
    while i < n
        invariant
            n == s@.len(),
            start <= i <= n,
            views(out@).push(s@.subrange(start as int, i as int)) == split_on(
                s@.take(i as int),
                ',',
            ),
        decreases n - i,
    {
        let c = s.get_char(i);
        let ghost t = s@.take(i + 1);
        let ghost prev = views(out@).push(s@.subrange(start as int, i as int));
        proof {
            lemma_split_on_nonempty(s@.take(i as int), ',');
            assert(t.drop_last() =~= s@.take(i as int));
            assert(t.last() == c);
            assert(prev == split_on(t.drop_last(), ','));
        }
        if c == ',' {
            let piece = s.substring_char(start, i).to_owned();
            proof {
                assert(views(out@.push(piece)) =~= views(out@).push(piece@));
                assert(split_on(t, ',') == prev.push(Seq::<char>::empty()));
                assert(s@.subrange(i + 1, i + 1) =~= Seq::<char>::empty());
                assert(views(out@.push(piece)).push(s@.subrange(i + 1, i + 1)) =~= split_on(
                    t,
                    ',',
                ));
            }
            out.push(piece);
            start = i + 1;
        } else {
            proof {
                assert(split_on(t, ',') == prev.update(
                    prev.len() - 1,
                    prev.last().push(c),
                ));
                assert(s@.subrange(start as int, i + 1) =~= s@.subrange(
                    start as int,
                    i as int,
                ).push(c));
                assert(views(out@).push(s@.subrange(start as int, i + 1)) =~= split_on(t, ','));
            }
        }
        i = i + 1;
    }
    let piece = s.substring_char(start, n).to_owned();
    proof {
        assert(s@.take(n as int) =~= s@);
        assert(views(out@.push(piece)) =~= views(out@).push(piece@));
    }
    out.push(piece);
    out
}

/// Emits the fetch requests of each tick, for as long as no request has failed
/// to go out.
pub struct Scheduler {
    pub symbols: Vec<String>,
    pub from: i64,
    pub running: bool,
}

impl Scheduler {
    /// A running scheduler for `symbols`, fetching from `from`.
    pub fn new(symbols: Vec<String>, from: i64) -> (r: Self)
        ensures
            r.symbols@ == symbols@,
            r.from == from,
            r.running,
    {
        Scheduler { symbols, from, running: true }
    }

    /// The requests of a tick at `now`: one per tracked symbol, in order, over
    /// `[from, now]`; none once the scheduler has stopped.
    pub fn tick(&self, now: i64) -> (r: Vec<FetchRequest>)
        ensures
            r@.len() == (if self.running { self.symbols@.len() } else { 0 }),
            forall|i: int|
                0 <= i < r@.len() ==> {
                    &&& (#[trigger] r@[i]).symbol@ == self.symbols@[i]@
                    &&& r@[i].from == self.from
                    &&& r@[i].to == now
                },
    {
        let mut out: Vec<FetchRequest> = Vec::new();
        if !self.running {
            return out;
        }
        let mut i: usize = 0;
        while i < self.symbols.len()
            invariant
                self.running,
                i <= self.symbols@.len(),
                out@.len() == i,
                forall|j: int|
                    0 <= j < i ==> {
                        &&& (#[trigger] out@[j]).symbol@ == self.symbols@[j]@
                        &&& out@[j].from == self.from
                        &&& out@[j].to == now
                    },
            decreases self.symbols@.len() - i,
        {
            let symbol = self.symbols[i].clone();
            out.push(FetchRequest { symbol, from: self.from, to: now });
            i = i + 1;
        }
        out
    }

    /// Records whether a request went out. A request that could not be
    /// delivered stops the scheduler: a fresh one has to take its place.
    pub fn record_delivery(&mut self, delivered: bool)
        ensures
            final(self).symbols@ == old(self).symbols@,
            final(self).from == old(self).from,
            final(self).running == (old(self).running && delivered),
    {
        if !delivered {
            self.running = false;
        }
    }
}

} // verus!
