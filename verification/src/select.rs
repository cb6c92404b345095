//! The guess selector.
//!
//! Given one round's tally, the selector proposes the reported value whose
//! observed frequency lies closest to the truthful fraction
//! `1 - liar_ratio`, skipping values already tried in earlier rounds.
//! Ties go to the numerically smallest value, and when every reported
//! value has been tried there is no candidate.

use vstd::prelude::*;

use crate::tally::{lemma_seq_count_absent, lemma_seq_count_at, lemma_sum_counts_entry, Tally};

verus! {

/// The liar ratio as an exact fraction `num / den`; a playable game has
/// `0 <= num/den < 1`.
#[derive(Clone, Copy, Debug)]
pub struct Ratio {
    pub num: u32,
    pub den: u32,
}

impl Ratio {
    pub open spec fn wf(self) -> bool {
        0 < self.den && self.num < self.den
    }
}

pub open spec fn abs_of(x: int) -> int {
    if x < 0 {
        -x
    } else {
        x
    }
}

/// A value's selection score, scaled by the positive common denominator
/// `den * total`: the distance between the observed frequency
/// `count / total` and the truthful fraction `(den - num) / den`. Scaling
/// keeps the comparison exact in integers and does not change its order.
pub open spec fn score_num(r: Ratio, total: int, count: int) -> int {
    abs_of((r.den - r.num) * total - count * r.den)
}

/// `c` beats `v`: a strictly smaller score, or an equal score and the
/// numerically smaller value.
pub open spec fn beats(r: Ratio, total: int, count_c: int, c: u16, count_v: int, v: u16) -> bool {
    ||| score_num(r, total, count_c) < score_num(r, total, count_v)
    ||| (score_num(r, total, count_c) == score_num(r, total, count_v) && c <= v)
}

fn contains_value(xs: &Vec<u16>, v: u16) -> (r: bool)
    ensures
        r <==> xs@.contains(v),
{
    let mut i: usize = 0;
    while i < xs.len()
        invariant
            i <= xs@.len(),
            forall|m: int| 0 <= m < i ==> xs@[m] != v,
        decreases xs@.len() - i,
    {
        if xs[i] == v {
            return true;
        }
        i += 1;
    }
    false
}

fn score_of(ratio: &Ratio, total: usize, count: usize) -> (s: u64)
    requires
        ratio.wf(),
        total <= 65535,
        count <= total,
    ensures
        s == score_num(*ratio, total as int, count as int),
{
    proof {
        let d = (ratio.den - ratio.num) as int;
        let e = ratio.den as int;
        assert(d * total <= 0xffff_ffff * 65536 && count * e <= 0xffff_ffff * 65536)
            by (nonlinear_arith)
            requires
                0 <= d <= 0xffff_ffff,
                0 <= e <= 0xffff_ffff,
                0 <= total <= 65536,
                0 <= count <= total,
        ;
    }
    let truthful = (ratio.den - ratio.num) as u64 * total as u64;
    let observed = count as u64 * ratio.den as u64;
    if truthful >= observed {
        truthful - observed
    } else {
        observed - truthful
    }
}

/// Pick the next guess from the round's tally: among the reported values
/// not yet tried, the one whose observed frequency is closest to the
/// truthful fraction `1 - liar_ratio`; ties go to the numerically
/// smallest value. `None` exactly when no untried value was reported —
/// the explicit "no candidate" outcome.
pub fn select(tally: &Tally, total: usize, ratio: &Ratio, already_tried: &Vec<u16>) -> (r: Option<
    u16,
>)
    requires
        tally.wf(),
        total == tally.total,
        total <= 65535,
        ratio.wf(),
    ensures
        r is Some <==> exists|v: u16| tally.count_of(v) > 0 && !already_tried@.contains(v),
        r matches Some(c) ==> {
            &&& tally.count_of(c) > 0
            &&& !already_tried@.contains(c)
            &&& forall|v: u16|
                tally.count_of(v) > 0 && !already_tried@.contains(v) ==> beats(
                    *ratio,
                    total as int,
                    tally.count_of(c),
                    c,
                    tally.count_of(v),
                    v,
                )
        },
{
    let ghost s = tally.entries@;
    let mut best: Option<(u16, u64)> = None;
    let mut i: usize = 0;
    let n = tally.entries.len();
    while i < n
        invariant
            i <= n,
            n == s.len(),
            s == tally.entries@,
            tally.wf(),
            total == tally.total,
            total <= 65535,
            ratio.wf(),
            best is None ==> forall|m: int| 0 <= m < i ==> already_tried@.contains(s[m].0),
            best matches Some(b) ==> {
                &&& tally.count_of(b.0) > 0
                &&& !already_tried@.contains(b.0)
                &&& b.1 == score_num(*ratio, total as int, tally.count_of(b.0))
                &&& (exists|m: int| 0 <= m < i && s[m].0 == b.0)
                &&& forall|m: int|
                    0 <= m < i && !already_tried@.contains(#[trigger] s[m].0) ==> beats(
                        *ratio,
                        total as int,
                        tally.count_of(b.0),
                        b.0,
                        tally.count_of(s[m].0),
                        s[m].0,
                    )
            },
        decreases n - i,
    {
        let key = tally.entries[i].0;
        let count = tally.entries[i].1;
        proof {
            lemma_seq_count_at(s, i as int);
            lemma_sum_counts_entry(s, i as int);
        }
        if !contains_value(already_tried, key) {
            let sc = score_of(ratio, total, count);
            match best {
                None => {
                    best = Some((key, sc));
                },
                Some(b) => {
                    if sc < b.1 || (sc == b.1 && key < b.0) {
                        best = Some((key, sc));
                    }
                },
            }
        }
        i += 1;
    }
    match best {
        None => {
            proof {
                assert forall|v: u16| !(tally.count_of(v) > 0 && !already_tried@.contains(v)) by {
                    if tally.count_of(v) > 0 {
                        if forall|m: int| 0 <= m < s.len() ==> s[m].0 != v {
                            lemma_seq_count_absent(s, v);
                        }
                        let m = choose|m: int| 0 <= m < s.len() && s[m].0 == v;
                        assert(already_tried@.contains(s[m].0));
                    }
                }
            }
            None
        },
        Some(b) => {
            proof {
                assert forall|v: u16|
                    tally.count_of(v) > 0 && !already_tried@.contains(v) implies beats(
                    *ratio,
                    total as int,
                    tally.count_of(b.0),
                    b.0,
                    tally.count_of(v),
                    v,
                ) by {
                    if forall|m: int| 0 <= m < s.len() ==> s[m].0 != v {
                        lemma_seq_count_absent(s, v);
                    }
                    let m = choose|m: int| 0 <= m < s.len() && s[m].0 == v;
                }
            }
            Some(b.0)
        },
    }
}

} // verus!
