//! Trimmed window averages: the arithmetic behind ao5 and ao12.
//!
//! A window of W solves is averaged by dropping extremes: with no DNF the
//! single minimum and single maximum time are discarded; with exactly one
//! DNF the minimum time and the DNF entry are discarded; with two or more
//! DNFs the whole window is disqualified. The remaining W - 2 times are
//! averaged, rounded to the nearest millisecond.

use crate::app::Penalty;
use vstd::prelude::*;

verus! {

/// Largest solve time, in milliseconds, that the store accepts. It keeps
/// every window sum far below the integer limit.
pub const MAX_TIME_MS: u64 = 0x1_0000_0000_0000;

/// A rolling average. `Unset` stands for "not enough history yet" and
/// `Dnf` for a disqualified window; both map to sentinel numbers only at
/// the persistence and comparison boundary.
#[derive(Clone, Copy, PartialEq, Eq, Structural, Debug)]
pub enum Average {
    Unset,
    Dnf,
    Value(u64),
}

/// The sentinel encoding of an average: 0 when unset, -1 when
/// disqualified, else the value itself. Bests compare by this key, so a
/// disqualified average orders below every genuine one.
pub open spec fn avg_key(a: Average) -> int {
    match a {
        Average::Unset => 0,
        Average::Dnf => -1,
        Average::Value(v) => v as int,
    }
}

/// What the window arithmetic reads of each solve: its penalty-adjusted
/// time and its penalty.
#[derive(Clone, Copy, PartialEq, Eq, Structural, Debug)]
pub struct TimeEntry {
    pub time: u64,
    pub penalty: Penalty,
}

/// The bound every stored entry satisfies: a plus-two time carries the two
/// added seconds on top of an in-range base time.
pub open spec fn entry_ok(e: TimeEntry) -> bool {
    match e.penalty {
        Penalty::PlusTwo => 2000 <= e.time <= MAX_TIME_MS + 2000,
        _ => e.time <= MAX_TIME_MS,
    }
}

/// The sum of the times of a window.
pub open spec fn sum_times(s: Seq<TimeEntry>) -> int
    decreases s.len(),
{
    if s.len() == 0 {
        0
    } else {
        sum_times(s.drop_last()) + s.last().time
    }
}

/// The least time of a window, 0 for an empty one.
pub open spec fn min_time(s: Seq<TimeEntry>) -> int
    decreases s.len(),
{
    if s.len() == 0 {
        0
    } else if s.len() == 1 {
        s[0].time as int
    } else {
        let m = min_time(s.drop_last());
        if s.last().time < m {
            s.last().time as int
        } else {
            m
        }
    }
}

/// The greatest time of a window, 0 for an empty one.
pub open spec fn max_time(s: Seq<TimeEntry>) -> int
    decreases s.len(),
{
    if s.len() == 0 {
        0
    } else if s.len() == 1 {
        s[0].time as int
    } else {
        let m = max_time(s.drop_last());
        if s.last().time > m {
            s.last().time as int
        } else {
            m
        }
    }
}

/// How many entries of a window are disqualified.
pub open spec fn dnf_count(s: Seq<TimeEntry>) -> int
    decreases s.len(),
{
    if s.len() == 0 {
        0
    } else {
        dnf_count(s.drop_last()) + if s.last().penalty is Dnf {
            1int
        } else {
            0int
        }
    }
}

/// The time of the first disqualified entry of a window, 0 when none is.
pub open spec fn first_dnf_time(s: Seq<TimeEntry>) -> int
    decreases s.len(),
{
    if s.len() == 0 {
        0
    } else if dnf_count(s.drop_last()) >= 1 {
        first_dnf_time(s.drop_last())
    } else if s.last().penalty is Dnf {
        s.last().time as int
    } else {
        0
    }
}

/// Division rounded to the nearest integer, halves rounding up.
pub open spec fn round_div(num: int, den: int) -> int {
    (num + den / 2) / den
}

/// The trimmed mean of one full window, per the rules above.
pub open spec fn ao_of_window(w: Seq<TimeEntry>) -> Average {
    if dnf_count(w) >= 2 {
        Average::Dnf
    } else {
        let dropped = if dnf_count(w) == 1 {
            first_dnf_time(w)
        } else {
            max_time(w)
        };
        Average::Value(round_div(sum_times(w) - min_time(w) - dropped, w.len() - 2) as u64)
    }
}

/// Every time contributes non-negatively, and each single entry is a lower
/// bound on the sum.
pub proof fn lemma_sum_elem(s: Seq<TimeEntry>, k: int)
    requires
        0 <= k < s.len(),
    ensures
        sum_times(s) >= s[k].time,
        sum_times(s) >= 0,
    decreases s.len(),
{
    if k == s.len() - 1 {
        lemma_sum_nonneg(s.drop_last());
    } else {
        lemma_sum_elem(s.drop_last(), k);
        assert(s.drop_last()[k] == s[k]);
    }
}

/// The sum of a window is never negative.
pub proof fn lemma_sum_nonneg(s: Seq<TimeEntry>)
    ensures
        sum_times(s) >= 0,
    decreases s.len(),
{
    if s.len() > 0 {
        lemma_sum_nonneg(s.drop_last());
    }
}

/// The minimum lies at or below every entry, and is itself non-negative.
pub proof fn lemma_min_le(s: Seq<TimeEntry>, k: int)
    requires
        0 <= k < s.len(),
    ensures
        0 <= min_time(s) <= s[k].time,
    decreases s.len(),
{
    if s.len() > 1 {
        if k < s.len() - 1 {
            lemma_min_le(s.drop_last(), k);
            assert(s.drop_last()[k] == s[k]);
        } else {
            lemma_min_le(s.drop_last(), 0);
        }
    }
}

/// The maximum is realized by some entry.
pub proof fn lemma_max_realized(s: Seq<TimeEntry>)
    requires
        s.len() >= 1,
    ensures
        exists|k: int| 0 <= k < s.len() && s[k].time == max_time(s),
    decreases s.len(),
{
    if s.len() == 1 {
        assert(s[0].time == max_time(s));
    } else {
        lemma_max_realized(s.drop_last());
        if s.last().time > max_time(s.drop_last()) {
            assert(s[s.len() - 1].time == max_time(s));
        } else {
            let k = choose|k: int|
                0 <= k < s.drop_last().len() && s.drop_last()[k].time == max_time(s.drop_last());
            assert(s[k].time == max_time(s));
        }
    }
}

/// A window with a disqualified entry realizes `first_dnf_time` at one.
pub proof fn lemma_first_dnf_realized(s: Seq<TimeEntry>)
    requires
        dnf_count(s) >= 1,
    ensures
        exists|k: int|
            0 <= k < s.len() && s[k].time == first_dnf_time(s) && s[k].penalty is Dnf,
    decreases s.len(),
{
    if dnf_count(s.drop_last()) >= 1 {
        lemma_first_dnf_realized(s.drop_last());
        let k = choose|k: int|
            0 <= k < s.drop_last().len() && s.drop_last()[k].time == first_dnf_time(s.drop_last())
                && s.drop_last()[k].penalty is Dnf;
        assert(s[k].time == first_dnf_time(s) && s[k].penalty is Dnf);
    } else {
        assert(s.len() >= 1 && s.last().penalty is Dnf);
        assert(s[s.len() - 1].time == first_dnf_time(s));
    }
}

/// Dropping the minimum and any one other entry never takes the sum below
/// zero: the sum covers the minimum plus any single entry.
pub proof fn lemma_sum_covers_min_plus(s: Seq<TimeEntry>, k: int)
    requires
        s.len() >= 2,
        0 <= k < s.len(),
    ensures
        sum_times(s) >= min_time(s) + s[k].time,
    decreases s.len(),
{
    let d = s.drop_last();
    if s.len() == 2 {
        assert(sum_times(s) == sum_times(d) + s.last().time);
        assert(sum_times(d) == sum_times(d.drop_last()) + d.last().time);
        assert(sum_times(d.drop_last()) == 0);
        assert(d[0] == s[0]);
        lemma_min_le(s, 0);
        lemma_min_le(s, 1);
    } else {
        if k < s.len() - 1 {
            lemma_sum_covers_min_plus(d, k);
            assert(d[k] == s[k]);
            lemma_min_le(d, 0);
        } else {
            lemma_sum_elem(d, 0);
            lemma_min_le(s, 0);
            assert(d[0] == s[0]);
        }
    }
}

/// An upper bound on a window's sum from the per-entry bound.
pub proof fn lemma_sum_upper(s: Seq<TimeEntry>)
    requires
        forall|i: int| 0 <= i < s.len() ==> entry_ok(#[trigger] s[i]),
    ensures
        sum_times(s) <= s.len() * (MAX_TIME_MS + 2000),
    decreases s.len(),
{
    if s.len() > 0 {
        let d = s.drop_last();
        assert(forall|i: int| 0 <= i < d.len() ==> d[i] == s[i]);
        lemma_sum_upper(d);
        assert(entry_ok(s[s.len() - 1]));
        assert(s.len() * (MAX_TIME_MS + 2000) == d.len() * (MAX_TIME_MS + 2000) + (MAX_TIME_MS
            + 2000)) by (nonlinear_arith)
            requires
                s.len() == d.len() + 1,
        ;
    }
}

} // verus!
