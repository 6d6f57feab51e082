//! The read side: the `n` of a tail query, and the snapshot it answers with.
use crate::buffer::{front, RetentionBuffer};
use vstd::prelude::*;

verus! {

/// Why a tail query was refused.
#[derive(PartialEq, Eq, Structural, Debug, Clone, Copy)]
pub enum QueryError {
    /// The count is not a non-negative decimal integer that fits in `usize`.
    BadCount,
}

/// `c` is an ASCII decimal digit.
pub open spec fn is_digit(c: char) -> bool {
    '0' <= c && c <= '9'
}

/// The value of the decimal digits `d`, most significant first.
pub open spec fn digits_value(d: Seq<char>) -> nat
    decreases d.len(),
{
    if d.len() == 0 {
        0
    } else {
        digits_value(d.drop_last()) * 10 + (d.last() as nat - '0' as nat) as nat
    }
}

/// The digits of a count: the text without one leading `+`.
pub open spec fn count_digits(s: Seq<char>) -> Seq<char> {
    if s.len() > 0 && s[0] == '+' {
        s.drop_first()
    } else {
        s
    }
}

/// The count that `s` denotes: an optional `+` followed by at least one
/// decimal digit and nothing else, with a value that fits in `usize`.
pub open spec fn parsed_count(s: Seq<char>) -> Option<usize> {
    let d = count_digits(s);
    if d.len() > 0 && (forall|i: int| 0 <= i < d.len() ==> is_digit(#[trigger] d[i]))
        && digits_value(d) <= usize::MAX {
        Some(digits_value(d) as usize)
    } else {
        None
    }
}

proof fn lemma_value_grows(d: Seq<char>, k: int)
    requires
        0 <= k <= d.len(),
        forall|i: int| 0 <= i < d.len() ==> is_digit(#[trigger] d[i]),
    ensures
        digits_value(d.take(k)) <= digits_value(d),
    decreases d.len() - k,
{
    if k < d.len() {
        lemma_value_grows(d, k + 1);
        assert(d.take(k + 1).drop_last() =~= d.take(k));
    } else {
        assert(d.take(k) =~= d);
    }
}

/// Reads the count of a tail query.
pub fn parse_count(s: &str) -> (r: Option<usize>)
    ensures
        r == parsed_count(s@),
{
    let n = s.unicode_len();
    let mut i: usize = 0;
    if n > 0 && s.get_char(0) == '+' {
        i = 1;
    }
    let ghost d = count_digits(s@);
    assert(d =~= s@.skip(i as int));
    if i == n {
        return None;
    }
    let mut v: usize = 0;
    while i < n
        invariant
            n == s@.len(),
            d == count_digits(s@),
            d == s@.skip(n - d.len()),
            d.len() <= n,
            n - d.len() <= i <= n,
            d.len() > 0,
            forall|j: int| n - d.len() <= j < i ==> is_digit(#[trigger] s@[j]),
            v == digits_value(d.take(i - (n - d.len()))),
        decreases n - i,
    {
        let c = s.get_char(i);
        let ghost k = i - (n - d.len());
        proof {
            assert(d[k] == c);
            assert(d.take(k + 1).drop_last() =~= d.take(k));
        }
        if c < '0' || c > '9' {
            assert(!is_digit(d[k]));
            return None;
        }
        let dg = (c as u32 - '0' as u32) as usize;
        assert(digits_value(d.take(k + 1)) == v * 10 + dg);
        if v > (usize::MAX - dg) / 10 {
            proof {
                assert(v * 10 + dg > usize::MAX) by (nonlinear_arith)
                    requires
                        v > (usize::MAX - dg) / 10,
                        dg <= 9,
                ;
                if forall|j: int| 0 <= j < d.len() ==> is_digit(#[trigger] d[j]) {
                    lemma_value_grows(d, k + 1);
                }
            }
            return None;
        }
        assert(v * 10 + dg <= usize::MAX) by (nonlinear_arith)
            requires
                v <= (usize::MAX - dg) / 10,
                dg <= 9,
        ;
        v = v * 10 + dg;
        i = i + 1;
    }
    proof {
        assert(d.take(d.len() as int) =~= d);
        assert forall|j: int| 0 <= j < d.len() implies is_digit(#[trigger] d[j]) by {
            assert(d[j] == s@[j + (n - d.len())]);
        }
    }
    Some(v)
}

/// Answers a tail query: the `n` newest records that `count` asks for, newest
/// first, as copies; `BadCount` when `count` is not a count.
pub fn tail<T: Clone>(buffer: &RetentionBuffer<T>, count: &str) -> (r: Result<Vec<T>, QueryError>)
    ensures
        r is Err <==> parsed_count(count@) is None,
        r is Err ==> r == Err::<Vec<T>, QueryError>(QueryError::BadCount),
        r matches Ok(v) ==> {
            &&& v@.len() == front(buffer@, parsed_count(count@)->0 as nat).len()
            &&& forall|i: int| 0 <= i < v@.len() ==> cloned(#[trigger] buffer@[i], v@[i])
        },
{
    match parse_count(count) {
        Some(n) => Ok(buffer.snapshot(n)),
        None => Err(QueryError::BadCount),
    }
}

/// A query for no records is answered with none, whatever the buffer holds.
pub proof fn lemma_tail_zero<T>(b: Seq<T>)
    ensures
        parsed_count(seq!['0']) == Some(0usize),
        front(b, 0).len() == 0,
{
    let d = seq!['0'];
    assert(count_digits(d) =~= d);
    assert(d.drop_last() =~= Seq::<char>::empty());
    assert(d.len() == 1 && d.last() == '0');
    assert(digits_value(d.drop_last()) == 0);
    assert(digits_value(d) == 0);
    assert(forall|i: int| 0 <= i < d.len() ==> is_digit(#[trigger] d[i]));
}

/// A count with a letter in it is refused.
pub proof fn lemma_letters_refused(s: Seq<char>, i: int)
    requires
        0 <= i < s.len(),
        'a' <= s[i] <= 'z',
    ensures
        parsed_count(s) is None,
{
    let d = count_digits(s);
    if s.len() > 0 && s[0] == '+' {
        assert(d[i - 1] == s[i]);
    } else {
        assert(d[i] == s[i]);
    }
}

} // verus!
