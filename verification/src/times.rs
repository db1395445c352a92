//! The statistics store: the ordered solve history with cached rolling
//! averages and the three personal bests (single, ao5, ao12).
//!
//! Every mutation leaves the store fully self-consistent: each record's
//! cached ao5/ao12 equals the trimmed mean of its trailing window, and each
//! best equals a full rescan of the current history.

use crate::app::Penalty;
use crate::display::time_text;
use crate::window::{
    ao_of_window, avg_key, dnf_count, entry_ok, first_dnf_time, lemma_first_dnf_realized,
    lemma_max_realized, lemma_sum_covers_min_plus, lemma_sum_upper, max_time, min_time, round_div,
    sum_times, Average, TimeEntry, MAX_TIME_MS,
};
use vstd::prelude::*;
use vstd::string::StringExecFns;

verus! {

/// One completed solve: its penalty-adjusted time in milliseconds, the
/// scramble it was solved from, its penalty, and the cached rolling
/// averages ending at this record.
#[derive(Debug)]
pub struct SolveRecord {
    pub time: u64,
    pub scramble: String,
    pub penalty: Penalty,
    pub ao5: Average,
    pub ao12: Average,
}

/// The mathematical content of a solve record.
#[verifier::ext_equal]
pub struct RecV {
    pub time: u64,
    pub scramble: Seq<char>,
    pub penalty: Penalty,
    pub ao5: Average,
    pub ao12: Average,
}

impl View for SolveRecord {
    type V = RecV;

    open spec fn view(&self) -> RecV {
        RecV {
            time: self.time,
            scramble: self.scramble@,
            penalty: self.penalty,
            ao5: self.ao5,
            ao12: self.ao12,
        }
    }
}

impl SolveRecord {
    /// An identical copy of the record.
    pub fn duplicate(&self) -> (r: SolveRecord)
        ensures
            r == *self,
    {
        SolveRecord {
            time: self.time,
            scramble: self.scramble.clone(),
            penalty: self.penalty,
            ao5: self.ao5,
            ao12: self.ao12,
        }
    }
}

/// A history of records as a sequence of their views.
pub open spec fn recs_view(v: Seq<SolveRecord>) -> Seq<RecV> {
    v.map_values(|r: SolveRecord| r@)
}

/// The entry the window arithmetic reads from a record.
pub open spec fn entry_of(r: RecV) -> TimeEntry {
    TimeEntry { time: r.time, penalty: r.penalty }
}

/// A history reduced to what the window arithmetic reads of it.
pub open spec fn entries_of(s: Seq<RecV>) -> Seq<TimeEntry> {
    s.map_values(|r: RecV| entry_of(r))
}

/// The rolling average of window size `w` ending at index `i`: unset until
/// `w` records reach back from `i`, else the trimmed mean of that window.
pub open spec fn ao_at(s: Seq<RecV>, i: int, w: int) -> Average {
    if i + 1 < w {
        Average::Unset
    } else {
        ao_of_window(entries_of(s).subrange(i + 1 - w, i + 1))
    }
}

/// Whether the record at `i` caches exactly the averages of its windows.
pub open spec fn cache_ok_at(s: Seq<RecV>, i: int) -> bool {
    &&& s[i].ao5 == ao_at(s, i, 5)
    &&& s[i].ao12 == ao_at(s, i, 12)
}

/// Whether every cached average in the history is correct.
pub open spec fn caches_ok(s: Seq<RecV>) -> bool {
    forall|i: int| 0 <= i < s.len() ==> #[trigger] cache_ok_at(s, i)
}

/// Whether every record's time is within the accepted bounds.
pub open spec fn entries_ok(s: Seq<RecV>) -> bool {
    forall|i: int| 0 <= i < s.len() ==> entry_ok(entry_of(#[trigger] s[i]))
}

/// A personal best: the metric's value and what supports it — the winning
/// window of records for an average, the scramble alone for a single.
#[derive(Debug)]
pub struct BestRecord {
    pub time: Average,
    pub scramble: String,
    pub records: Vec<SolveRecord>,
}

/// The mathematical content of a personal best.
#[verifier::ext_equal]
pub struct BestV {
    pub time: Average,
    pub scramble: Seq<char>,
    pub records: Seq<RecV>,
}

impl View for BestRecord {
    type V = BestV;

    open spec fn view(&self) -> BestV {
        BestV { time: self.time, scramble: self.scramble@, records: recs_view(self.records@) }
    }
}

/// A best that has not been achieved yet.
pub open spec fn unset_best() -> BestV {
    BestV { time: Average::Unset, scramble: Seq::empty(), records: Seq::empty() }
}

impl BestRecord {
    /// A best holding the unset sentinel and no supporting records.
    pub fn unset() -> (r: BestRecord)
        ensures
            r@ == unset_best(),
    {
        let r = BestRecord { time: Average::Unset, scramble: String::new(), records: Vec::new() };
        proof {
            assert(r@ =~= unset_best());
        }
        r
    }
}

/// The index of the first record achieving the lowest time.
pub open spec fn best_single_idx(s: Seq<RecV>) -> int
    decreases s.len(),
{
    if s.len() <= 1 {
        0
    } else {
        let j = best_single_idx(s.drop_last());
        if s.last().time < s[j].time {
            s.len() - 1
        } else {
            j
        }
    }
}

/// The best single of a history: the first record with the lowest time,
/// unset while the history is empty.
pub open spec fn best_single_of(s: Seq<RecV>) -> BestV {
    if s.len() == 0 {
        unset_best()
    } else {
        let j = best_single_idx(s);
        BestV { time: Average::Value(s[j].time), scramble: s[j].scramble, records: Seq::empty() }
    }
}

/// The index of the first record whose window-`w` average has the lowest
/// sentinel key, or -1 while fewer than `w` records exist. A disqualified
/// average keys below every genuine one, as the sentinel encoding orders.
pub open spec fn best_ao_idx(s: Seq<RecV>, w: int) -> int
    decreases s.len(),
{
    if s.len() < w || w < 1 {
        -1
    } else {
        let j = best_ao_idx(s.drop_last(), w);
        if j == -1 {
            s.len() - 1
        } else if avg_key(ao_at(s, s.len() - 1, w)) < avg_key(ao_at(s, j, w)) {
            s.len() - 1
        } else {
            j
        }
    }
}

/// The best window-`w` average of a history with its supporting window,
/// unset while fewer than `w` records exist.
pub open spec fn best_ao_of(s: Seq<RecV>, w: int) -> BestV {
    let j = best_ao_idx(s, w);
    if j == -1 {
        unset_best()
    } else {
        BestV {
            time: ao_at(s, j, w),
            scramble: Seq::empty(),
            records: s.subrange(j + 1 - w, j + 1),
        }
    }
}

/// The best-average index lies on a full window whenever one exists.
pub proof fn lemma_best_ao_idx_bounds(s: Seq<RecV>, w: int)
    requires
        1 <= w,
    ensures
        s.len() < w ==> best_ao_idx(s, w) == -1,
        s.len() >= w ==> w - 1 <= best_ao_idx(s, w) < s.len(),
    decreases s.len(),
{
    if s.len() >= w {
        lemma_best_ao_idx_bounds(s.drop_last(), w);
    }
}

/// The ordered solve history together with the three personal bests.
#[derive(Debug)]
pub struct Times {
    pub times: Vec<SolveRecord>,
    pub best_single: BestRecord,
    pub best_ao5: BestRecord,
    pub best_ao12: BestRecord,
}

impl View for Times {
    type V = Seq<RecV>;

    open spec fn view(&self) -> Seq<RecV> {
        recs_view(self.times@)
    }
}

impl Times {
    /// Full self-consistency: every time in bounds, every cached average
    /// correct, and each best equal to a rescan of the history.
    pub open spec fn wf(&self) -> bool {
        &&& entries_ok(self@)
        &&& caches_ok(self@)
        &&& self.best_single@ == best_single_of(self@)
        &&& self.best_ao5@ == best_ao_of(self@, 5)
        &&& self.best_ao12@ == best_ao_of(self@, 12)
    }

    /// An empty store with all bests unset.
    pub fn new() -> (r: Times)
        ensures
            r@ == Seq::<RecV>::empty(),
            r.wf(),
    {
        let r = Times {
            times: Vec::new(),
            best_single: BestRecord::unset(),
            best_ao5: BestRecord::unset(),
            best_ao12: BestRecord::unset(),
        };
        proof {
            assert(r@ =~= Seq::<RecV>::empty());
            assert(r.best_single@ =~= best_single_of(r@));
            assert(r.best_ao5@ =~= best_ao_of(r@, 5));
            assert(r.best_ao12@ =~= best_ao_of(r@, 12));
        }
        r
    }

    /// How many solves the store holds.
    pub fn num_times(&self) -> (r: usize)
        ensures
            r == self@.len(),
    {
        self.times.len()
    }

    /// The trimmed mean of the `w` records ending at `index`, computed in
    /// one pass over that window.
    fn window_average(&self, index: usize, w: usize) -> (r: Average)
        requires
            3 <= w <= 20,
            w <= index + 1,
            index < self@.len(),
            entries_ok(self@),
        ensures
            r == ao_of_window(entries_of(self@).subrange(index + 1 - w, index + 1)),
    {
        let n = self.times.len();
        proof {
            assert(n == self@.len());
        }
        let lo = index + 1 - w;
        let ghost es = entries_of(self@);
        let mut sum: u64 = 0;
        let mut mn: u64 = 0;
        let mut mx: u64 = 0;
        let mut dnfs: u64 = 0;
        let mut dnf_t: u64 = 0;
        let mut j = lo;
        proof {
            assert(es.subrange(lo as int, lo as int) =~= Seq::<TimeEntry>::empty());
        }
        while j <= index
            invariant
                lo <= j <= index + 1,
                lo == index + 1 - w,
                3 <= w <= 20,
                index < n,
                n == self@.len(),
                dnfs <= j - lo,
                entries_ok(self@),
                es == entries_of(self@),
                sum == sum_times(es.subrange(lo as int, j as int)),
                j > lo ==> mn == min_time(es.subrange(lo as int, j as int)),
                j > lo ==> mx == max_time(es.subrange(lo as int, j as int)),
                dnfs == dnf_count(es.subrange(lo as int, j as int)),
                dnfs >= 1 ==> dnf_t == first_dnf_time(es.subrange(lo as int, j as int)),
            decreases index + 1 - j,
        {
            let ghost prev = es.subrange(lo as int, j as int);
            proof {
                assert(forall|k: int| 0 <= k < prev.len() ==> prev[k] == es[lo + k]);
                assert(forall|k: int|
                    0 <= k < prev.len() ==> entry_ok(#[trigger] prev[k]));
                lemma_sum_upper(prev);
            }
            let e_time = self.times[j].time;
            let e_dnf = self.times[j].penalty == Penalty::Dnf;
            proof {
                assert(self@[j as int] == self.times@[j as int]@);
                assert(es[j as int] == entry_of(self@[j as int]));
            }
            if j == lo {
                mn = e_time;
                mx = e_time;
            } else {
                if e_time < mn {
                    mn = e_time;
                }
                if e_time > mx {
                    mx = e_time;
                }
            }
            proof {
                assert(entry_ok(entry_of(self@[j as int])));
                assert(prev.len() * (MAX_TIME_MS + 2000) <= 20 * (MAX_TIME_MS + 2000))
                    by (nonlinear_arith)
                    requires
                        prev.len() <= 20,
                ;
            }
            sum = sum + e_time;
            if e_dnf {
                if dnfs == 0 {
                    dnf_t = e_time;
                }
                dnfs = dnfs + 1;
            }
            j = j + 1;
            proof {
                let cur = es.subrange(lo as int, j as int);
                assert(cur.drop_last() =~= prev);
                assert(cur.last() == es[j - 1]);
            }
        }
        let ghost win = es.subrange(lo as int, index + 1);
        if dnfs >= 2 {
            Average::Dnf
        } else {
            proof {
                if dnfs == 1 {
                    lemma_first_dnf_realized(win);
                    let k = choose|k: int|
                        0 <= k < win.len() && win[k].time == first_dnf_time(win)
                            && win[k].penalty is Dnf;
                    lemma_sum_covers_min_plus(win, k);
                } else {
                    lemma_max_realized(win);
                    let k = choose|k: int| 0 <= k < win.len() && win[k].time == max_time(win);
                    lemma_sum_covers_min_plus(win, k);
                }
                assert(forall|k: int| 0 <= k < win.len() ==> entry_ok(#[trigger] win[k]));
                lemma_sum_upper(win);
                assert(win.len() * (MAX_TIME_MS + 2000) <= 20 * (MAX_TIME_MS + 2000))
                    by (nonlinear_arith)
                    requires
                        win.len() <= 20,
                ;
            }
            let dropv = if dnfs == 1 {
                dnf_t
            } else {
                mx
            };
            let num = sum - mn - dropv;
            let den = (w - 2) as u64;
            let r = (num + den / 2) / den;
            proof {
                assert(r == round_div(sum_times(win) - min_time(win) - (if dnf_count(win) == 1 {
                    first_dnf_time(win)
                } else {
                    max_time(win)
                }), win.len() - 2));
            }
            Average::Value(r)
        }
    }

    /// The ao5 cached at `index`: the trimmed mean of the five records
    /// ending there, or unset while fewer than five reach back.
    pub fn calc_ao5(&self, index: usize) -> (r: Average)
        requires
            index < self@.len(),
            entries_ok(self@),
        ensures
            r == ao_at(self@, index as int, 5),
    {
        if index < 4 {
            Average::Unset
        } else {
            self.window_average(index, 5)
        }
    }

    /// The ao12 cached at `index`: the trimmed mean of the twelve records
    /// ending there, or unset while fewer than twelve reach back.
    pub fn calc_ao12(&self, index: usize) -> (r: Average)
        requires
            index < self@.len(),
            entries_ok(self@),
        ensures
            r == ao_at(self@, index as int, 12),
    {
        if index < 11 {
            Average::Unset
        } else {
            self.window_average(index, 12)
        }
    }
}

/// Whether the records at one index of two histories agree on time,
/// scramble and penalty (their cached averages may differ).
pub open spec fn base_eq_at(a: Seq<RecV>, b: Seq<RecV>, i: int) -> bool {
    &&& a[i].time == b[i].time
    &&& a[i].scramble == b[i].scramble
    &&& a[i].penalty == b[i].penalty
}

/// Whether two histories hold the same solves in the same order, cached
/// averages aside.
pub open spec fn same_base(a: Seq<RecV>, b: Seq<RecV>) -> bool {
    &&& a.len() == b.len()
    &&& forall|i: int| 0 <= i < a.len() ==> #[trigger] base_eq_at(a, b, i)
}

/// Histories with the same solves feed the window arithmetic identically.
pub proof fn lemma_same_base_entries(a: Seq<RecV>, b: Seq<RecV>)
    requires
        same_base(a, b),
    ensures
        entries_of(a) == entries_of(b),
{
    assert forall|i: int| 0 <= i < a.len() implies entries_of(a)[i] == entries_of(b)[i] by {
        assert(base_eq_at(a, b, i));
    }
    assert(entries_of(a) =~= entries_of(b));
}

/// The best-single index lies inside the history whenever one exists.
pub proof fn lemma_best_single_idx_bounds(s: Seq<RecV>)
    requires
        s.len() >= 1,
    ensures
        0 <= best_single_idx(s) < s.len(),
    decreases s.len(),
{
    if s.len() > 1 {
        lemma_best_single_idx_bounds(s.drop_last());
    }
}

/// A window that ends inside a prefix of the history is the same window
/// there: the average at such an index does not depend on later records.
pub proof fn lemma_ao_at_take(s: Seq<RecV>, m: int, i: int, w: int)
    requires
        1 <= w,
        0 <= i < m <= s.len(),
    ensures
        ao_at(s.subrange(0, m), i, w) == ao_at(s, i, w),
{
    if i + 1 >= w {
        assert(entries_of(s.subrange(0, m)).subrange(i + 1 - w, i + 1) =~= entries_of(s).subrange(
            i + 1 - w,
            i + 1,
        ));
    }
}

impl Times {
    /// Recompute every record's cached ao5 and ao12 from the current
    /// history, touching nothing else.
    fn recompute_caches(&mut self)
        requires
            entries_ok(old(self)@),
        ensures
            same_base(final(self)@, old(self)@),
            entries_ok(final(self)@),
            caches_ok(final(self)@),
            final(self).best_single == old(self).best_single,
            final(self).best_ao5 == old(self).best_ao5,
            final(self).best_ao12 == old(self).best_ao12,
    {
        let n = self.times.len();
        let mut i: usize = 0;
        proof {
            assert forall|k: int| 0 <= k < old(self)@.len() implies #[trigger] base_eq_at(
                self@,
                old(self)@,
                k,
            ) by {}
        }
        while i < n
            invariant
                i <= n,
                n == self@.len(),
                same_base(self@, old(self)@),
                entries_ok(self@),
                forall|k: int| 0 <= k < i ==> #[trigger] cache_ok_at(self@, k),
                self.best_single == old(self).best_single,
                self.best_ao5 == old(self).best_ao5,
                self.best_ao12 == old(self).best_ao12,
            decreases n - i,
        {
            let v5 = self.calc_ao5(i);
            let v12 = self.calc_ao12(i);
            let ghost pre = self@;
            let r = &mut self.times[i];
            r.ao5 = v5;
            r.ao12 = v12;
            proof {
                let cur = self@;
                assert forall|k: int| 0 <= k < cur.len() implies #[trigger] base_eq_at(
                    cur,
                    pre,
                    k,
                ) by {
                    if k != i {
                        assert(cur[k] == pre[k]);
                    }
                }
                assert forall|k: int| 0 <= k < cur.len() implies #[trigger] base_eq_at(
                    cur,
                    old(self)@,
                    k,
                ) by {
                    assert(base_eq_at(cur, pre, k));
                    assert(base_eq_at(pre, old(self)@, k));
                }
                lemma_same_base_entries(cur, pre);
                assert forall|k: int| 0 <= k < cur.len() implies entry_ok(
                    entry_of(#[trigger] cur[k]),
                ) by {
                    assert(base_eq_at(cur, pre, k));
                    assert(entry_ok(entry_of(pre[k])));
                }
                assert forall|k: int| 0 <= k <= i implies #[trigger] cache_ok_at(cur, k) by {
                    if k < i {
                        assert(cache_ok_at(pre, k));
                        assert(cur[k] == pre[k]);
                    } else {
                        assert(cur[k].ao5 == v5 && cur[k].ao12 == v12);
                    }
                }
            }
            i = i + 1;
        }
        proof {
            assert forall|k: int| 0 <= k < self@.len() implies #[trigger] cache_ok_at(
                self@,
                k,
            ) by {}
        }
    }

    /// The best single found by a full rescan of the history.
    fn rescan_single_best(&self) -> (r: BestRecord)
        ensures
            r@ == best_single_of(self@),
    {
        let n = self.times.len();
        if n == 0 {
            let r = BestRecord::unset();
            proof {
                assert(r@ =~= best_single_of(self@));
            }
            return r;
        }
        let mut bi: usize = 0;
        let mut i: usize = 1;
        proof {
            assert(self@.subrange(0, 1).len() == 1);
        }
        while i < n
            invariant
                1 <= i <= n,
                n == self@.len(),
                bi < i,
                bi == best_single_idx(self@.subrange(0, i as int)),
            decreases n - i,
        {
            let better = self.times[i].time < self.times[bi].time;
            proof {
                let p = self@.subrange(0, i as int);
                let p1 = self@.subrange(0, i + 1);
                lemma_best_single_idx_bounds(p);
                assert(p1.drop_last() =~= p);
                assert(p1.last() == self@[i as int]);
                assert(p1[bi as int] == self@[bi as int]);
                assert(self@[i as int].time == self.times@[i as int]@.time);
            }
            if better {
                bi = i;
            }
            i = i + 1;
        }
        proof {
            assert(self@.subrange(0, n as int) =~= self@);
        }
        let best = &self.times[bi];
        let r = BestRecord {
            time: Average::Value(best.time),
            scramble: best.scramble.clone(),
            records: Vec::new(),
        };
        proof {
            assert(r@ =~= best_single_of(self@));
        }
        r
    }

    /// Whether `a` orders strictly below `b` in the sentinel encoding, the
    /// order in which a lower best wins.
    fn avg_better(a: Average, b: Average) -> (r: bool)
        ensures
            r == (avg_key(a) < avg_key(b)),
    {
        match (a, b) {
            (Average::Dnf, Average::Dnf) => false,
            (Average::Dnf, _) => true,
            (Average::Unset, Average::Value(v)) => v > 0,
            (Average::Unset, _) => false,
            (Average::Value(x), Average::Value(y)) => x < y,
            (Average::Value(_), _) => false,
        }
    }

    /// The cached window-`w` average at `index`.
    fn cached_ao(&self, index: usize, w: usize) -> (r: Average)
        requires
            w == 5 || w == 12,
            index < self@.len(),
            caches_ok(self@),
        ensures
            r == ao_at(self@, index as int, w as int),
    {
        proof {
            assert(cache_ok_at(self@, index as int));
        }
        if w == 5 {
            self.times[index].ao5
        } else {
            self.times[index].ao12
        }
    }

    /// The supporting window of `w` records ending at `hi - 1`, copied.
    fn copy_window(&self, hi: usize, w: usize) -> (r: Vec<SolveRecord>)
        requires
            w <= hi <= self@.len(),
        ensures
            recs_view(r@) == self@.subrange(hi - w, hi as int),
    {
        let mut r: Vec<SolveRecord> = Vec::new();
        let mut k = hi - w;
        proof {
            assert(recs_view(r@) =~= self@.subrange(hi - w, hi - w));
        }
        while k < hi
            invariant
                w <= hi <= self@.len(),
                hi - w <= k <= hi,
                recs_view(r@) == self@.subrange(hi - w, k as int),
            decreases hi - k,
        {
            let ghost pre = r@;
            let dup = self.times[k].duplicate();
            r.push(dup);
            proof {
                assert(r@ == pre.push(self.times@[k as int]));
                assert(recs_view(pre).len() == pre.len());
                assert(recs_view(pre).len() == k - (hi - w));
                assert(pre.len() == k - (hi - w));
                assert(recs_view(r@).len() == pre.len() + 1);
                assert forall|j: int| 0 <= j < r@.len() implies recs_view(r@)[j] == self@.subrange(
                    hi - w,
                    k + 1,
                )[j] by {
                    assert(recs_view(r@)[j] == r@[j]@);
                    assert(self@.subrange(hi - w, k + 1)[j] == self@[hi - w + j]);
                    if j < pre.len() {
                        assert(r@[j] == pre[j]);
                        assert(recs_view(pre)[j] == pre[j]@);
                        assert(recs_view(pre)[j] == self@.subrange(hi - w, k as int)[j]);
                        assert(self@.subrange(hi - w, k as int)[j] == self@[hi - w + j]);
                    } else {
                        assert(j == pre.len());
                        assert(r@[j] == self.times@[k as int]);
                        assert(self@[k as int] == self.times@[k as int]@);
                    }
                }
                assert(recs_view(r@) =~= self@.subrange(hi - w, k + 1));
            }
            k = k + 1;
        }
        r
    }

    /// The best window-`w` average found by a full rescan of the history.
    fn rescan_ao_best(&self, w: usize) -> (r: BestRecord)
        requires
            w == 5 || w == 12,
            entries_ok(self@),
            caches_ok(self@),
        ensures
            r@ == best_ao_of(self@, w as int),
    {
        let n = self.times.len();
        proof {
            lemma_best_ao_idx_bounds(self@, w as int);
        }
        if n < w {
            let r = BestRecord::unset();
            proof {
                assert(r@ =~= best_ao_of(self@, w as int));
            }
            return r;
        }
        let mut bj: usize = w - 1;
        let mut i: usize = w;
        proof {
            let p = self@.subrange(0, w as int);
            lemma_best_ao_idx_bounds(p.drop_last(), w as int);
            assert(best_ao_idx(p.drop_last(), w as int) == -1);
            assert(best_ao_idx(p, w as int) == w - 1);
        }
        while i < n
            invariant
                w <= i <= n,
                w == 5 || w == 12,
                n == self@.len(),
                entries_ok(self@),
                caches_ok(self@),
                w - 1 <= bj < i,
                bj == best_ao_idx(self@.subrange(0, i as int), w as int),
            decreases n - i,
        {
            let cand = self.cached_ao(i, w);
            let cur = self.cached_ao(bj, w);
            proof {
                let p = self@.subrange(0, i as int);
                let p1 = self@.subrange(0, i + 1);
                assert(p1.drop_last() =~= p);
                lemma_ao_at_take(self@, i + 1, i as int, w as int);
                lemma_ao_at_take(self@, i + 1, bj as int, w as int);
                lemma_best_ao_idx_bounds(p, w as int);
            }
            if Self::avg_better(cand, cur) {
                bj = i;
            }
            i = i + 1;
        }
        proof {
            assert(self@.subrange(0, n as int) =~= self@);
        }
        let time = self.cached_ao(bj, w);
        let records = self.copy_window(bj + 1, w);
        let r = BestRecord { time, scramble: String::new(), records };
        proof {
            assert(r@ =~= best_ao_of(self@, w as int));
        }
        r
    }

    /// Recompute every cached average and rescan all three bests, leaving
    /// the store fully self-consistent. The full rescan is deliberate:
    /// after an index shift the previous best windows may no longer align,
    /// so nothing incremental is attempted.
    pub fn update_after_delete(&mut self)
        requires
            entries_ok(old(self)@),
        ensures
            same_base(final(self)@, old(self)@),
            final(self).wf(),
    {
        self.recompute_caches();
        let bs = self.rescan_single_best();
        let b5 = self.rescan_ao_best(5);
        let b12 = self.rescan_ao_best(12);
        self.best_single = bs;
        self.best_ao5 = b5;
        self.best_ao12 = b12;
    }

    /// Remove the record at `index`; an out-of-range index is a no-op.
    /// Every cached average is recomputed and every best rescanned.
    pub fn del_time(&mut self, index: usize)
        requires
            old(self).wf(),
        ensures
            final(self).wf(),
            index < old(self)@.len() ==> same_base(
                final(self)@,
                old(self)@.remove(index as int),
            ),
            index >= old(self)@.len() ==> *final(self) == *old(self),
    {
        if index >= self.times.len() {
            return;
        }
        let _removed = self.times.remove(index);
        proof {
            assert(self@ =~= old(self)@.remove(index as int));
            assert forall|k: int| 0 <= k < self@.len() implies entry_ok(
                entry_of(#[trigger] self@[k]),
            ) by {
                if k < index {
                    assert(self@[k] == old(self)@[k]);
                    assert(entry_ok(entry_of(old(self)@[k])));
                } else {
                    assert(self@[k] == old(self)@[k + 1]);
                    assert(entry_ok(entry_of(old(self)@[k + 1])));
                }
            }
        }
        self.update_after_delete();
    }

    /// Remove the most recent record; a no-op on an empty store.
    pub fn del_last(&mut self)
        requires
            old(self).wf(),
        ensures
            final(self).wf(),
            old(self)@.len() > 0 ==> same_base(
                final(self)@,
                old(self)@.remove(old(self)@.len() - 1),
            ),
            old(self)@.len() == 0 ==> *final(self) == *old(self),
    {
        let n = self.times.len();
        if n == 0 {
            return;
        }
        self.del_time(n - 1);
    }

    /// Clear all three bests to unset.
    pub fn reset_bests(&mut self)
        ensures
            final(self)@ == old(self)@,
            final(self).best_single@ == unset_best(),
            final(self).best_ao5@ == unset_best(),
            final(self).best_ao12@ == unset_best(),
    {
        self.best_single = BestRecord::unset();
        self.best_ao5 = BestRecord::unset();
        self.best_ao12 = BestRecord::unset();
    }

    /// Clear the whole history and all bests.
    pub fn reset(&mut self)
        ensures
            final(self)@ == Seq::<RecV>::empty(),
            final(self).wf(),
    {
        self.times.clear();
        self.reset_bests();
        proof {
            assert(self@ =~= Seq::<RecV>::empty());
        }
    }
}

/// The effect of toggling `kind` on a record currently holding entry `e`.
/// Toggling the penalty already present clears it; a plus-two carries two
/// seconds in or out of the stored time as it comes and goes, while a DNF
/// leaves the time alone.
pub open spec fn toggled(e: TimeEntry, kind: Penalty) -> TimeEntry {
    match kind {
        Penalty::Dnf => match e.penalty {
            Penalty::Dnf => TimeEntry { time: e.time, penalty: Penalty::NoPenalty },
            Penalty::PlusTwo => TimeEntry { time: (e.time - 2000) as u64, penalty: Penalty::Dnf },
            Penalty::NoPenalty => TimeEntry { time: e.time, penalty: Penalty::Dnf },
        },
        Penalty::PlusTwo => match e.penalty {
            Penalty::PlusTwo => TimeEntry {
                time: (e.time - 2000) as u64,
                penalty: Penalty::NoPenalty,
            },
            Penalty::Dnf => TimeEntry { time: (e.time + 2000) as u64, penalty: Penalty::PlusTwo },
            Penalty::NoPenalty => TimeEntry {
                time: (e.time + 2000) as u64,
                penalty: Penalty::PlusTwo,
            },
        },
        Penalty::NoPenalty => e,
    }
}

impl BestRecord {
    /// A copy of the best with the same content.
    pub fn duplicate(&self) -> (r: BestRecord)
        ensures
            r@ == self@,
    {
        let n = self.records.len();
        let mut recs: Vec<SolveRecord> = Vec::new();
        let mut i: usize = 0;
        proof {
            assert(recs_view(recs@) =~= recs_view(self.records@).subrange(0, 0));
        }
        while i < n
            invariant
                i <= n,
                n == self.records@.len(),
                recs_view(recs@) == recs_view(self.records@).subrange(0, i as int),
            decreases n - i,
        {
            let ghost pre = recs@;
            let dup = self.records[i].duplicate();
            recs.push(dup);
            proof {
                assert(recs@ == pre.push(self.records@[i as int]));
                assert(recs_view(pre).len() == pre.len());
                assert(recs_view(pre).len() == i);
                assert forall|j: int| 0 <= j < recs@.len() implies recs_view(recs@)[j] == recs_view(
                    self.records@,
                ).subrange(0, i + 1)[j] by {
                    if j < pre.len() {
                        assert(recs@[j] == pre[j]);
                        assert(recs_view(pre)[j] == recs_view(self.records@).subrange(
                            0,
                            i as int,
                        )[j]);
                    } else {
                        assert(recs@[j] == self.records@[i as int]);
                    }
                }
                assert(recs_view(recs@) =~= recs_view(self.records@).subrange(0, i + 1));
            }
            i = i + 1;
        }
        proof {
            assert(recs_view(self.records@).subrange(0, n as int) =~= recs_view(self.records@));
        }
        let r = BestRecord { time: self.time, scramble: self.scramble.clone(), records: recs };
        proof {
            assert(r@ =~= self@);
        }
        r
    }
}

impl Times {
    /// Toggle `kind` on the most recent record; a no-op on an empty store
    /// or for the no-penalty kind. Afterwards every cached average is
    /// recomputed and every best rescanned, since a penalty change can
    /// alter the DNF count of every window containing the record.
    pub fn toggle_penalty(&mut self, penalty: Penalty)
        requires
            old(self).wf(),
        ensures
            final(self).wf(),
            old(self)@.len() == 0 ==> *final(self) == *old(self),
            penalty is NoPenalty ==> *final(self) == *old(self),
            old(self)@.len() > 0 && !(penalty is NoPenalty) ==> {
                let s = old(self)@;
                let li = s.len() - 1;
                let e = toggled(entry_of(s[li]), penalty);
                &&& final(self)@.len() == s.len()
                &&& (forall|i: int| 0 <= i < li ==> #[trigger] base_eq_at(final(self)@, s, i))
                &&& final(self)@[li].time == e.time
                &&& final(self)@[li].penalty == e.penalty
                &&& final(self)@[li].scramble == s[li].scramble
            },
    {
        let n = self.times.len();
        if n == 0 {
            return;
        }
        if penalty == Penalty::NoPenalty {
            return;
        }
        let idx = n - 1;
        proof {
            assert(entry_ok(entry_of(self@[idx as int])));
        }
        let t = self.times[idx].time;
        let cur = self.times[idx].penalty;
        let dnf_kind = penalty == Penalty::Dnf;
        let nt: u64;
        let np: Penalty;
        if dnf_kind {
            if cur == Penalty::Dnf {
                nt = t;
                np = Penalty::NoPenalty;
            } else if cur == Penalty::PlusTwo {
                nt = t - 2000;
                np = Penalty::Dnf;
            } else {
                nt = t;
                np = Penalty::Dnf;
            }
        } else {
            if cur == Penalty::PlusTwo {
                nt = t - 2000;
                np = Penalty::NoPenalty;
            } else if cur == Penalty::Dnf {
                nt = t + 2000;
                np = Penalty::PlusTwo;
            } else {
                nt = t + 2000;
                np = Penalty::PlusTwo;
            }
        }
        let ghost pre = self@;
        let r = &mut self.times[idx];
        r.time = nt;
        r.penalty = np;
        let ghost mid = self@;
        proof {
            assert(mid.len() == pre.len());
            assert(forall|k: int| 0 <= k < pre.len() && k != idx ==> mid[k] == pre[k]);
            let e = toggled(entry_of(pre[idx as int]), penalty);
            assert(mid[idx as int].time == e.time);
            assert(mid[idx as int].penalty == e.penalty);
            assert(mid[idx as int].scramble == pre[idx as int].scramble);
            assert forall|k: int| 0 <= k < mid.len() implies entry_ok(
                entry_of(#[trigger] mid[k]),
            ) by {
                assert(entry_ok(entry_of(pre[k])));
            }
        }
        self.update_after_delete();
        proof {
            assert(same_base(self@, mid));
            assert forall|i: int| 0 <= i < idx implies #[trigger] base_eq_at(
                self@,
                old(self)@,
                i,
            ) by {
                assert(base_eq_at(self@, mid, i));
                assert(mid[i] == pre[i]);
            }
            assert(base_eq_at(self@, mid, idx as int));
        }
    }

    /// The best single after one append, given the best of the history
    /// without its last record: the newcomer wins only when strictly lower.
    fn bump_single_best(&self, prev: &BestRecord) -> (r: BestRecord)
        requires
            self@.len() >= 1,
            prev@ == best_single_of(self@.drop_last()),
        ensures
            r@ == best_single_of(self@),
    {
        let n = self.times.len();
        let t = self.times[n - 1].time;
        let replace = if n == 1 {
            true
        } else {
            match prev.time {
                Average::Value(bv) => t < bv,
                _ => false,
            }
        };
        proof {
            let s = self@;
            let d = s.drop_last();
            assert(s.last() == self.times@[n - 1]@);
            if n >= 2 {
                lemma_best_single_idx_bounds(d);
                let j = best_single_idx(d);
                assert(d[j] == s[j]);
                assert(prev@.time == Average::Value(d[j].time));
            }
        }
        if replace {
            let b = &self.times[n - 1];
            let r = BestRecord {
                time: Average::Value(b.time),
                scramble: b.scramble.clone(),
                records: Vec::new(),
            };
            proof {
                assert(r@ =~= best_single_of(self@));
            }
            r
        } else {
            let r = prev.duplicate();
            proof {
                let s = self@;
                let d = s.drop_last();
                let j = best_single_idx(d);
                assert(d[j] == s[j]);
                assert(best_single_of(d) =~= best_single_of(s));
            }
            r
        }
    }

    /// The best window-`w` average after one append, given the best of the
    /// history without its last record: the newcomer wins when the history
    /// first fills a window, or when its key is strictly lower.
    fn bump_ao_best(&self, prev: &BestRecord, w: usize) -> (r: BestRecord)
        requires
            w == 5 || w == 12,
            self@.len() >= 1,
            entries_ok(self@),
            caches_ok(self@),
            prev@ == best_ao_of(self@.drop_last(), w as int),
        ensures
            r@ == best_ao_of(self@, w as int),
    {
        let n = self.times.len();
        proof {
            lemma_best_ao_idx_bounds(self@.drop_last(), w as int);
            lemma_best_ao_idx_bounds(self@, w as int);
        }
        if n < w {
            let r = prev.duplicate();
            proof {
                assert(prev@ =~= best_ao_of(self@, w as int));
            }
            return r;
        }
        let cand = self.cached_ao(n - 1, w);
        let replace = match prev.time {
            Average::Unset => true,
            b => Self::avg_better(cand, b),
        };
        proof {
            let s = self@;
            let d = s.drop_last();
            let j = best_ao_idx(d, w as int);
            if j != -1 {
                lemma_ao_at_take(s, s.len() - 1, j, w as int);
                assert(s.subrange(0, s.len() - 1) =~= d);
                assert(prev@.time == ao_at(d, j, w as int));
                assert(!(ao_at(d, j, w as int) is Unset));
            }
        }
        if replace {
            let recs = self.copy_window(n, w);
            let r = BestRecord { time: cand, scramble: String::new(), records: recs };
            proof {
                assert(r@ =~= best_ao_of(self@, w as int));
            }
            r
        } else {
            let r = prev.duplicate();
            proof {
                let s = self@;
                let d = s.drop_last();
                let j = best_ao_idx(d, w as int);
                lemma_ao_at_take(s, s.len() - 1, j, w as int);
                assert(s.subrange(0, s.len() - 1) =~= d);
                assert(d.subrange(j + 1 - w, j + 1) =~= s.subrange(j + 1 - w, j + 1));
                assert(best_ao_of(d, w as int) =~= best_ao_of(s, w as int));
            }
            r
        }
    }

    /// Finish an append: compute the new record's cached averages from its
    /// trailing windows and update each best against the newcomer.
    pub fn update_after_add(&mut self)
        requires
            old(self)@.len() >= 1,
            entries_ok(old(self)@),
            forall|i: int| 0 <= i < old(self)@.len() - 1 ==> #[trigger] cache_ok_at(old(self)@, i),
            old(self).best_single@ == best_single_of(old(self)@.drop_last()),
            old(self).best_ao5@ == best_ao_of(old(self)@.drop_last(), 5),
            old(self).best_ao12@ == best_ao_of(old(self)@.drop_last(), 12),
        ensures
            final(self)@.len() == old(self)@.len(),
            forall|i: int| 0 <= i < old(self)@.len() - 1 ==> final(self)@[i] == old(self)@[i],
            base_eq_at(final(self)@, old(self)@, old(self)@.len() - 1),
            final(self).wf(),
    {
        let n = self.times.len();
        let idx = n - 1;
        let v5 = self.calc_ao5(idx);
        let v12 = self.calc_ao12(idx);
        let ghost pre = self@;
        let r = &mut self.times[idx];
        r.ao5 = v5;
        r.ao12 = v12;
        proof {
            let cur = self@;
            assert(cur.len() == pre.len());
            assert(forall|k: int| 0 <= k < pre.len() && k != idx ==> cur[k] == pre[k]);
            assert forall|k: int| 0 <= k < cur.len() implies #[trigger] base_eq_at(
                cur,
                pre,
                k,
            ) by {}
            lemma_same_base_entries(cur, pre);
            assert forall|k: int| 0 <= k < cur.len() implies entry_ok(
                entry_of(#[trigger] cur[k]),
            ) by {
                assert(entry_ok(entry_of(pre[k])));
            }
            assert forall|k: int| 0 <= k < cur.len() implies #[trigger] cache_ok_at(cur, k) by {
                if k < idx {
                    assert(cache_ok_at(pre, k));
                    assert(cur[k] == pre[k]);
                } else {
                    assert(cur[k].ao5 == v5 && cur[k].ao12 == v12);
                }
            }
            assert(cur.drop_last() =~= pre.drop_last());
        }
        let bs = self.bump_single_best(&self.best_single);
        let b5 = self.bump_ao_best(&self.best_ao5, 5);
        let b12 = self.bump_ao_best(&self.best_ao12, 12);
        self.best_single = bs;
        self.best_ao5 = b5;
        self.best_ao12 = b12;
        proof {
            assert(base_eq_at(self@, old(self)@, old(self)@.len() - 1));
        }
    }

    /// Append a solve: the time handed in is already penalty-adjusted. The
    /// new record's averages are computed from its trailing windows, and
    /// each best is updated where the newcomer is strictly better.
    pub fn add_time(&mut self, time: u64, scramble: String, penalty: Penalty)
        requires
            old(self).wf(),
            entry_ok(TimeEntry { time, penalty }),
        ensures
            final(self).wf(),
            final(self)@.len() == old(self)@.len() + 1,
            forall|i: int| 0 <= i < old(self)@.len() ==> final(self)@[i] == old(self)@[i],
            final(self)@.last().time == time,
            final(self)@.last().scramble == scramble@,
            final(self)@.last().penalty == penalty,
    {
        let ghost pre = self@;
        let rec = SolveRecord {
            time,
            scramble,
            penalty,
            ao5: Average::Unset,
            ao12: Average::Unset,
        };
        let ghost recv = rec@;
        self.times.push(rec);
        proof {
            assert(self@ =~= pre.push(recv));
            let s = self@;
            assert forall|k: int| 0 <= k < s.len() implies entry_ok(
                entry_of(#[trigger] s[k]),
            ) by {
                if k < pre.len() {
                    assert(s[k] == pre[k]);
                    assert(entry_ok(entry_of(pre[k])));
                }
            }
            assert forall|i: int| 0 <= i < s.len() - 1 implies #[trigger] cache_ok_at(s, i) by {
                assert(s[i] == pre[i]);
                assert(cache_ok_at(pre, i));
                lemma_ao_at_take(s, s.len() - 1, i, 5);
                lemma_ao_at_take(s, s.len() - 1, i, 12);
                assert(s.subrange(0, s.len() - 1) =~= pre);
            }
            assert(s.drop_last() =~= pre);
        }
        self.update_after_add();
    }

    /// The current single, ao5 and ao12 as display strings: `NA` while the
    /// history is too short, `DNF` for a disqualified value, else seconds
    /// with three decimals.
    pub fn currents(&self) -> (r: Vec<String>)
        ensures
            r@.len() == 3,
            r@[0]@ == (if self@.len() == 0 {
                avg_text(Average::Unset)
            } else if self@.last().penalty is Dnf {
                avg_text(Average::Dnf)
            } else {
                time_text(self@.last().time as int)
            }),
            r@[1]@ == (if self@.len() < 5 {
                avg_text(Average::Unset)
            } else {
                avg_text(self@.last().ao5)
            }),
            r@[2]@ == (if self@.len() < 12 {
                avg_text(Average::Unset)
            } else {
                avg_text(self@.last().ao12)
            }),
    {
        let mut r: Vec<String> = Vec::new();
        let n = self.times.len();
        if n == 0 {
            r.push(self.display_time(Average::Unset));
            r.push(self.display_time(Average::Unset));
            r.push(self.display_time(Average::Unset));
            return r;
        }
        proof {
            assert(self@.last() == self.times@[n - 1]@);
        }
        let last = &self.times[n - 1];
        if last.penalty == Penalty::Dnf {
            r.push(self.display_time(Average::Dnf));
        } else {
            r.push(crate::display::ms_to_text(last.time));
        }
        if n >= 5 {
            r.push(self.display_time(last.ao5));
        } else {
            r.push(self.display_time(Average::Unset));
        }
        if n >= 12 {
            r.push(self.display_time(last.ao12));
        } else {
            r.push(self.display_time(Average::Unset));
        }
        r
    }

    /// The best single, ao5 and ao12 as display strings, under the same
    /// rendering rules as `currents`.
    pub fn bests(&self) -> (r: Vec<String>)
        requires
            self.wf(),
        ensures
            r@.len() == 3,
            r@[0]@ == (if self@.len() == 0 {
                avg_text(Average::Unset)
            } else {
                avg_text(best_single_of(self@).time)
            }),
            r@[1]@ == (if self@.len() < 5 {
                avg_text(Average::Unset)
            } else {
                avg_text(best_ao_of(self@, 5).time)
            }),
            r@[2]@ == (if self@.len() < 12 {
                avg_text(Average::Unset)
            } else {
                avg_text(best_ao_of(self@, 12).time)
            }),
    {
        let mut r: Vec<String> = Vec::new();
        let n = self.times.len();
        if n == 0 {
            r.push(self.display_time(Average::Unset));
            r.push(self.display_time(Average::Unset));
            r.push(self.display_time(Average::Unset));
            return r;
        }
        proof {
            lemma_best_ao_idx_bounds(self@, 5);
            lemma_best_ao_idx_bounds(self@, 12);
        }
        r.push(self.display_time(self.best_single.time));
        if n >= 5 {
            r.push(self.display_time(self.best_ao5.time));
        } else {
            r.push(self.display_time(Average::Unset));
        }
        if n >= 12 {
            r.push(self.display_time(self.best_ao12.time));
        } else {
            r.push(self.display_time(Average::Unset));
        }
        r
    }
}

/// While a store holds fewer than five records, every record's ao5 is the
/// unset sentinel, and likewise for ao12 under twelve records — penalties
/// or none.
pub proof fn lemma_small_store_averages_unset(t: &Times)
    requires
        t.wf(),
        forall|i: int| 0 <= i < t@.len() ==> (#[trigger] t@[i]).penalty is NoPenalty,
    ensures
        t@.len() < 5 ==> forall|i: int| 0 <= i < t@.len() ==> (#[trigger] t@[i]).ao5 is Unset,
        t@.len() < 12 ==> forall|i: int| 0 <= i < t@.len() ==> (#[trigger] t@[i]).ao12 is Unset,
{
    assert forall|i: int| 0 <= i < t@.len() && t@.len() < 5 implies (#[trigger] t@[i]).ao5
        is Unset by {
        assert(cache_ok_at(t@, i));
    }
    assert forall|i: int| 0 <= i < t@.len() && t@.len() < 12 implies (#[trigger] t@[i]).ao12
        is Unset by {
        assert(cache_ok_at(t@, i));
    }
}

/// A five-record window holding two or more DNFs disqualifies the average
/// cached at its last index.
pub proof fn lemma_two_dnfs_disqualify(t: &Times, i: int)
    requires
        t.wf(),
        4 <= i < t@.len(),
        dnf_count(entries_of(t@).subrange(i - 4, i + 1)) >= 2,
    ensures
        t@[i].ao5 is Dnf,
{
    assert(cache_ok_at(t@, i));
}

/// Toggling DNF twice restores a record's time and penalty exactly, as
/// long as the record did not hold a plus-two (toggling DNF onto a
/// plus-two record folds the two added seconds back out, which the second
/// toggle does not restore).
pub proof fn lemma_dnf_toggle_round_trip(e: TimeEntry)
    requires
        entry_ok(e),
        !(e.penalty is PlusTwo),
    ensures
        toggled(toggled(e, Penalty::Dnf), Penalty::Dnf) == e,
{
}

/// How an average is displayed: `NA` when unset, `DNF` when disqualified,
/// else the value in seconds with three decimals.
pub open spec fn avg_text(a: Average) -> Seq<char> {
    match a {
        Average::Unset => seq!['N', 'A'],
        Average::Dnf => seq!['D', 'N', 'F'],
        Average::Value(v) => time_text(v as int),
    }
}

impl Times {
    /// The display string of an average.
    pub fn display_time(&self, time: Average) -> (r: String)
        ensures
            r@ == avg_text(time),
    {
        match time {
            Average::Unset => {
                proof {
                    reveal_strlit("NA");
                }
                let s = String::from_str("NA");
                proof {
                    assert(s@ =~= avg_text(time));
                }
                s
            },
            Average::Dnf => {
                proof {
                    reveal_strlit("DNF");
                }
                let s = String::from_str("DNF");
                proof {
                    assert(s@ =~= avg_text(time));
                }
                s
            },
            Average::Value(v) => crate::display::ms_to_text(v),
        }
    }
}

} // verus!
