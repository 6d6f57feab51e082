//! The retention buffer: the most recent records, newest first, bounded.
use std::collections::VecDeque;
use vstd::prelude::*;

verus! {

/// How many records the buffer keeps at most.
pub const BUFFER_CAPACITY: usize = 50;

/// The first `CAP` entries of `s`, or all of them when there are fewer.
pub open spec fn retained<T>(s: Seq<T>) -> Seq<T> {
    if s.len() <= BUFFER_CAPACITY {
        s
    } else {
        s.take(BUFFER_CAPACITY as int)
    }
}

/// The contents after `x` arrives in a buffer holding `s`.
pub open spec fn inserted<T>(s: Seq<T>, x: T) -> Seq<T> {
    retained(seq![x] + s)
}

/// The contents after each item of `xs` arrives, in order, in a buffer holding `s`.
pub open spec fn after_inserts<T>(s: Seq<T>, xs: Seq<T>) -> Seq<T>
    decreases xs.len(),
{
    if xs.len() == 0 {
        s
    } else {
        inserted(after_inserts(s, xs.drop_last()), xs.last())
    }
}

/// The most recent `min(|xs|, CAP)` items of `xs`, newest first.
pub open spec fn newest_first<T>(xs: Seq<T>) -> Seq<T> {
    let k = if xs.len() <= BUFFER_CAPACITY { xs.len() as int } else { BUFFER_CAPACITY as int };
    Seq::new(k as nat, |i: int| xs[xs.len() - 1 - i])
}

/// The first `n` entries of `s`, or all of them when there are fewer.
pub open spec fn front<T>(s: Seq<T>, n: nat) -> Seq<T> {
    if n <= s.len() {
        s.take(n as int)
    } else {
        s
    }
}

/// A bounded sequence of records, newest first.
pub struct RetentionBuffer<T> {
    entries: VecDeque<T>,
}

impl<T> View for RetentionBuffer<T> {
    type V = Seq<T>;

    closed spec fn view(&self) -> Seq<T> {
        self.entries@
    }
}

impl<T> RetentionBuffer<T> {
    /// An empty buffer.
    pub fn new() -> (r: Self)
        ensures
            r@ == Seq::<T>::empty(),
    {
        RetentionBuffer { entries: VecDeque::with_capacity(BUFFER_CAPACITY) }
    }

    /// The number of records held.
    pub fn len(&self) -> (r: usize)
        ensures
            r == self@.len(),
    {
        self.entries.len()
    }

    /// Puts `item` at the newest end and drops whatever lies beyond the capacity.
    pub fn insert(&mut self, item: T)
        ensures
            final(self)@ == inserted(old(self)@, item),
            final(self)@.len() <= BUFFER_CAPACITY,
    {
        self.entries.push_front(item);
        self.entries.truncate(BUFFER_CAPACITY);
    }

    /// A copy of the `n` newest records, newest first (all of them when fewer are held).
    pub fn snapshot(&self, n: usize) -> (r: Vec<T>)
        where
            T: Clone,
        ensures
            r@.len() == front(self@, n as nat).len(),
            forall|i: int| 0 <= i < r@.len() ==> cloned(#[trigger] self@[i], r@[i]),
    {
        let len = self.entries.len();
        let k = if n < len { n } else { len };
        let mut out: Vec<T> = Vec::with_capacity(k);
        let mut i: usize = 0;
        while i < k
            invariant
                k <= len == self@.len(),
                k == front(self@, n as nat).len(),
                i <= k,
                out@.len() == i,
                forall|j: int| 0 <= j < i ==> cloned(#[trigger] self@[j], out@[j]),
            decreases k - i,
        {
            let x = self.entries[i].clone();
            out.push(x);
            i = i + 1;
        }
        out
    }
}

/// Whatever the buffer held, after one insert it holds at most its capacity.
pub proof fn lemma_insert_within_capacity<T>(s: Seq<T>, x: T)
    ensures
        inserted(s, x).len() <= BUFFER_CAPACITY,
{
}

/// Starting empty, after any run of inserts the buffer holds exactly the most
/// recent `CAP` items (all of them if fewer arrived), newest first.
pub proof fn lemma_keeps_most_recent<T>(xs: Seq<T>)
    ensures
        after_inserts(Seq::<T>::empty(), xs) == newest_first(xs),
        after_inserts(Seq::<T>::empty(), xs).len() <= BUFFER_CAPACITY,
    decreases xs.len(),
{
    if xs.len() > 0 {
        let p = xs.drop_last();
        lemma_keeps_most_recent(p);
        let prev = newest_first(p);
        let cur = inserted(prev, xs.last());
        assert(cur =~= newest_first(xs));
    } else {
        assert(newest_first(xs) =~= Seq::<T>::empty());
    }
}

} // verus!
