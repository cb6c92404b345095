//! The round tally: how often each value was reported in one round.
//!
//! The aggregator sends `"talk"` to every registered agent, then reads the
//! answers in the order the connections were opened. An answer counts only
//! when it is exactly two bytes; the tally maps each decoded value to its
//! number of occurrences, and the total is the number of valid answers —
//! failed endpoints simply shrink the denominator.

use vstd::prelude::*;

use crate::codec::be_word;

verus! {

/// An answer enters the tally only when it is exactly two bytes long.
pub open spec fn is_valid_response(r: Seq<u8>) -> bool {
    r.len() == 2
}

/// The value a valid answer reports.
pub open spec fn response_value(r: Seq<u8>) -> u16 {
    be_word(r[0], r[1])
}

/// How many answers of the round are valid and report `v`.
pub open spec fn votes_for(rs: Seq<Seq<u8>>, v: u16) -> int
    decreases rs.len(),
{
    if rs.len() == 0 {
        0
    } else {
        votes_for(rs.drop_last(), v) + if is_valid_response(rs.last()) && response_value(rs.last())
            == v {
            1int
        } else {
            0int
        }
    }
}

/// How many answers of the round are valid at all.
pub open spec fn valid_total(rs: Seq<Seq<u8>>) -> int
    decreases rs.len(),
{
    if rs.len() == 0 {
        0
    } else {
        valid_total(rs.drop_last()) + if is_valid_response(rs.last()) {
            1int
        } else {
            0int
        }
    }
}

/// A round has no more valid answers than answers.
pub proof fn lemma_valid_total_le_len(rs: Seq<Seq<u8>>)
    ensures
        0 <= valid_total(rs) <= rs.len(),
    decreases rs.len(),
{
    if rs.len() > 0 {
        lemma_valid_total_le_len(rs.drop_last());
    }
}

pub open spec fn seq_count(entries: Seq<(u16, usize)>, v: u16) -> int
    decreases entries.len(),
{
    if entries.len() == 0 {
        0
    } else {
        seq_count(entries.drop_last(), v) + if entries.last().0 == v {
            entries.last().1 as int
        } else {
            0int
        }
    }
}

pub open spec fn sum_counts(entries: Seq<(u16, usize)>) -> int
    decreases entries.len(),
{
    if entries.len() == 0 {
        0
    } else {
        sum_counts(entries.drop_last()) + entries.last().1
    }
}

/// One round's tally: occurrence count per reported value, and the number
/// of valid answers behind them.
pub struct Tally {
    pub entries: Vec<(u16, usize)>,
    pub total: usize,
}

impl Tally {
    /// Each reported value appears in exactly one entry, every entry was
    /// reported at least once, and the total is the sum of the counts.
    pub open spec fn wf(self) -> bool {
        &&& (forall|i: int, j: int|
            0 <= i < j < self.entries@.len() ==> self.entries@[i].0 != self.entries@[j].0)
        &&& (forall|i: int| 0 <= i < self.entries@.len() ==> self.entries@[i].1 >= 1)
        &&& self.total == sum_counts(self.entries@)
    }

    /// How often `v` was reported this round.
    pub open spec fn count_of(self, v: u16) -> int {
        seq_count(self.entries@, v)
    }

    /// An empty tally: nothing reported yet.
    pub fn new() -> (t: Tally)
        ensures
            t.wf(),
            t.total == 0,
            forall|v: u16| t.count_of(v) == 0,
    {
        Tally { entries: Vec::new(), total: 0 }
    }

    /// Record one reported value.
    pub fn increment(&mut self, v: u16)
        requires
            old(self).wf(),
            old(self).total < usize::MAX,
        ensures
            final(self).wf(),
            final(self).total == old(self).total + 1,
            final(self).count_of(v) == old(self).count_of(v) + 1,
            forall|w: u16| w != v ==> final(self).count_of(w) == old(self).count_of(w),
    {
        let ghost s = self.entries@;
        let mut i: usize = 0;
        let n = self.entries.len();
        while i < n
            invariant
                i <= n,
                *self == *old(self),
                old(self).wf(),
                old(self).total < usize::MAX,
                s == self.entries@,
                n == s.len(),
                forall|m: int| 0 <= m < i ==> s[m].0 != v,
            decreases n - i,
        {
            if self.entries[i].0 == v {
                proof {
                    lemma_sum_counts_entry(s, i as int);
                    lemma_seq_count_at(s, i as int);
                    lemma_bump(s, i as int);
                }
                let c = self.entries[i].1;
                self.entries.set(i, (v, c + 1));
                self.total = self.total + 1;
                return ;
            }
            i += 1;
        }
        proof {
            assert(s.push((v, 1)).drop_last() =~= s);
            assert forall|w: u16| #[trigger] seq_count(s.push((v, 1)), w) == seq_count(s, w) + if w
                == v {
                1int
            } else {
                0int
            } by {
                assert(s.push((v, 1)).drop_last() =~= s);
            }
        }
        self.entries.push((v, 1));
        self.total = self.total + 1;
    }
}

/// Every single count is bounded by the sum of all of them.
pub proof fn lemma_sum_counts_entry(s: Seq<(u16, usize)>, i: int)
    requires
        0 <= i < s.len(),
    ensures
        s[i].1 <= sum_counts(s),
    decreases s.len(),
{
    if i < s.len() - 1 {
        assert(s.drop_last()[i] == s[i]);
        lemma_sum_counts_entry(s.drop_last(), i);
    }
    lemma_sum_counts_nonneg(s.drop_last());
}

pub proof fn lemma_sum_counts_nonneg(s: Seq<(u16, usize)>)
    ensures
        sum_counts(s) >= 0,
    decreases s.len(),
{
    if s.len() > 0 {
        lemma_sum_counts_nonneg(s.drop_last());
    }
}

/// With unique keys, the count recorded at an entry is the whole count of
/// that entry's value.
pub proof fn lemma_seq_count_at(s: Seq<(u16, usize)>, i: int)
    requires
        0 <= i < s.len(),
        forall|a: int, b: int| 0 <= a < b < s.len() ==> s[a].0 != s[b].0,
    ensures
        seq_count(s, s[i].0) == s[i].1,
    decreases s.len(),
{
    if i == s.len() - 1 {
        lemma_seq_count_absent(s.drop_last(), s[i].0);
    } else {
        assert(s.drop_last()[i] == s[i]);
        lemma_seq_count_at(s.drop_last(), i);
    }
}

/// A value held by no entry has count zero.
pub proof fn lemma_seq_count_absent(s: Seq<(u16, usize)>, v: u16)
    requires
        forall|a: int| 0 <= a < s.len() ==> s[a].0 != v,
    ensures
        seq_count(s, v) == 0,
    decreases s.len(),
{
    if s.len() > 0 {
        lemma_seq_count_absent(s.drop_last(), v);
    }
}

/// Raising one entry's count by one raises the sum and that value's count
/// by one and leaves every other value's count alone.
proof fn lemma_bump(s: Seq<(u16, usize)>, i: int)
    requires
        0 <= i < s.len(),
        s[i].1 < usize::MAX,
    ensures
        ({
            let s2 = s.update(i, (s[i].0, (s[i].1 + 1) as usize));
            &&& sum_counts(s2) == sum_counts(s) + 1
            &&& (forall|x: u16| #[trigger] seq_count(s2, x) == seq_count(s, x) + if s[i].0 == x {
                1int
            } else {
                0int
            })
        }),
    decreases s.len(),
{
    let s2 = s.update(i, (s[i].0, (s[i].1 + 1) as usize));
    if i == s.len() - 1 {
        assert(s2.drop_last() =~= s.drop_last());
        assert(s2.last() == (s[i].0, (s[i].1 + 1) as usize));
    } else {
        assert(s2.drop_last() =~= s.drop_last().update(i, (s[i].0, (s[i].1 + 1) as usize)));
        lemma_bump(s.drop_last(), i);
        assert(s.drop_last()[i] == s[i]);
        assert(s2.last() == s.last());
        assert forall|x: u16| #[trigger] seq_count(s2, x) == seq_count(s, x) + if s[i].0 == x {
            1int
        } else {
            0int
        } by {
            assert(seq_count(s2.drop_last(), x) == seq_count(s.drop_last(), x) + if s[i].0 == x {
                1int
            } else {
                0int
            });
        }
    }
}

/// Build the round's tally: count every valid answer's value; the total is
/// the number of valid answers.
pub fn tally_responses(responses: &Vec<Vec<u8>>) -> (t: Tally)
    ensures
        t.wf(),
        t.total == valid_total(responses.deep_view()),
        forall|v: u16| #[trigger] t.count_of(v) == votes_for(responses.deep_view(), v),
{
    let ghost rs = responses.deep_view();
    let mut t = Tally::new();
    let mut i: usize = 0;
    let n = responses.len();
    proof {
        assert(rs.len() == responses@.len());
    }
    while i < n
        invariant
            i <= n,
            n == responses@.len(),
            rs == responses.deep_view(),
            rs.len() == n,
            t.wf(),
            t.total == valid_total(rs.take(i as int)),
            valid_total(rs.take(i as int)) <= i,
            forall|v: u16| #[trigger] t.count_of(v) == votes_for(rs.take(i as int), v),
        decreases n - i,
    {
        let ghost pre = rs.take(i as int);
        proof {
            assert(rs.take(i + 1).drop_last() =~= pre);
            assert(rs.take(i + 1).last() == rs[i as int]);
            assert(rs[i as int] =~= responses@[i as int]@);
        }
        let resp = &responses[i];
        if resp.len() == 2 {
            let hi = resp[0];
            let lo = resp[1];
            let v = (hi as u16) * 256 + (lo as u16);
            proof {
                assert(is_valid_response(rs[i as int]));
                assert(response_value(rs[i as int]) == v);
            }
            t.increment(v);
        } else {
            proof {
                assert(!is_valid_response(rs[i as int]));
            }
        }
        i += 1;
    }
    proof {
        assert(rs.take(n as int) =~= rs);
    }
    t
}

} // verus!
