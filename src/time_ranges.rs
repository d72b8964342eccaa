//! Contiguous time windows between scene boundaries.
use vstd::prelude::*;
use crate::decimal::{
    in_range, lemma_one, lemma_pow10_add, lemma_pow10_positive, lemma_round_bounds, lemma_round_parts,
    lemma_split_order, pow10, pow10_i128, round_to_multiple, value_of, Decimal, NonZeroDecimal,
    ONE,
};
use vstd::arithmetic::div_mod::lemma_fundamental_div_mod;
use vstd::arithmetic::div_mod::lemma_mod_bound;
use crate::error::Error;

verus! {

/// End of the window that starts at `cursor`: the cursor plus `step` seconds,
/// rounded to a whole second, but never past `end`.
pub open spec fn next_bound(cursor: int, step: int, end: int) -> int {
    let r = round_to_multiple(cursor + step * ONE, ONE as int);
    if r <= end {
        r
    } else {
        end
    }
}

/// The windows, as (start, end) in units, that a sequence yields from `cursor`
/// up to `end`. A sequence stops early if a window would end at zero.
pub open spec fn windows_from(cursor: int, step: int, end: int) -> Seq<(int, int)>
    decreases end - cursor,
{
    if cursor >= end || step < 1 {
        seq![]
    } else {
        let n = next_bound(cursor, step, end);
        if n == 0 || n <= cursor {
            seq![]
        } else {
            seq![(cursor, n)] + windows_from(n, step, end)
        }
    }
}

/// Whether a sequence can be built from `start` to `end` with `step`.
pub open spec fn bounds_ok(start: int, step: int, end: int) -> bool {
    start < end && end != 0 && step > 0
}

/// The global plan: the windows of each consecutive pair of `bounds`, in order.
pub open spec fn plan_of(bounds: Seq<int>, step: int) -> Seq<(int, int)>
    decreases bounds.len(),
{
    if bounds.len() < 2 {
        seq![]
    } else {
        plan_of(bounds.drop_last(), step) + windows_from(
            bounds[bounds.len() - 2],
            step,
            bounds[bounds.len() - 1],
        )
    }
}

/// The window ends after `cursor` when the step is at least one second.
pub proof fn lemma_next_bound_advances(cursor: int, step: int, end: int)
    requires
        cursor < end,
        step >= 1,
    ensures
        cursor < next_bound(cursor, step, end) <= end,
{
    lemma_round_bounds(cursor + step * ONE, ONE as int);
    assert(step * ONE >= ONE) by (nonlinear_arith)
        requires step >= 1;
}

/// One time window `[start, end)`.
#[derive(Debug, Clone, Copy, PartialEq, Eq)]
pub struct TimeRange {
    pub start: Decimal,
    pub end: NonZeroDecimal,
}

impl View for TimeRange {
    type V = (int, int);

    open spec fn view(&self) -> (int, int) {
        (self.start@, self.end@)
    }
}

/// Units in one millisecond.
pub open spec fn millisecond() -> int {
    pow10(25)
}

/// The duration of a window, in units: its length rounded to milliseconds,
/// ties to even.
pub open spec fn duration_units(w: (int, int)) -> int {
    round_to_multiple(w.1 - w.0, millisecond())
}

impl TimeRange {
    pub open spec fn wf(&self) -> bool {
        self.start.wf() && self.end.wf()
    }

    /// The length rounded to three fractional digits, where it is not zero
    /// and its mantissa at scale three fits.
    pub fn duration(&self) -> (r: Option<NonZeroDecimal>)
        requires
            self.wf(),
        ensures
            r is Some <==> duration_units(self@) != 0 && in_range(
                duration_units(self@) / millisecond(),
            ),
            r matches Some(d) ==> d.wf() && d@ == duration_units(self@)
                && d.spec_get().spec_mantissa() == duration_units(self@) / millisecond()
                && d.spec_get().spec_scale() == 3,
    {
        let end = self.end.get();
        let (qs, fs) = self.start.split();
        let (qe, fe) = end.split();
        let mut qd = qe - qs;
        let mut fd = fe - fs;
        if fd < 0 {
            qd = qd - 1;
            fd = fd + ONE;
        }
        assert(self@.1 - self@.0 == qd * ONE + fd) by (nonlinear_arith)
            requires
                self@.1 == qe * ONE + fe,
                self@.0 == qs * ONE + fs,
                (qd == qe - qs && fd == fe - fs) || (qd == qe - qs - 1 && fd == fe - fs + ONE),
        ;
        let p = pow10_i128(25);
        proof {
            lemma_one();
            lemma_pow10_add(25, 3);
            reveal_with_fuel(pow10, 4);
            assert(ONE == p * 1000);
            lemma_fundamental_div_mod(fd as int, p as int);
            lemma_mod_bound(fd as int, p as int);
            let qq = fd as int / p as int;
            let rr = fd as int % p as int;
            assert(0 <= qq < 1000) by (nonlinear_arith)
                requires fd == p * qq + rr, 0 <= rr < p, 0 <= fd < ONE, ONE == p * 1000;
        }
        let a = fd.checked_div_euclid(p).unwrap();
        let b = fd.checked_rem_euclid(p).unwrap();
        let c = qd * 1000 + a;
        let up = !(2 * b < p || (2 * b == p && c.checked_rem_euclid(2).unwrap() == 0));
        let m = if up {
            c + 1
        } else {
            c
        };
        proof {
            assert(self@.1 - self@.0 == c * p + b) by (nonlinear_arith)
                requires self@.1 - self@.0 == qd * ONE + fd, ONE == p * 1000, fd == p * a + b,
                    c == qd * 1000 + a;
            lemma_round_parts(c as int, b as int, p as int);
            assert(millisecond() == p);
            assert(duration_units(self@) == m * p);
            assert((m * p) / (p as int) == m) by (nonlinear_arith) requires p > 0;
            assert(duration_units(self@) / millisecond() == m);
            assert((m == 0) == (duration_units(self@) == 0)) by (nonlinear_arith)
                requires duration_units(self@) == m * p, p > 0;
            assert(value_of(m as int, 3) == m * p);
        }
        if m == 0 || m < -crate::decimal::MAX_MANTISSA || m > crate::decimal::MAX_MANTISSA {
            return None;
        }
        let d = Decimal::new(m, 3).unwrap();
        NonZeroDecimal::try_new(d)
    }
}

/// A single-pass generator of contiguous windows from a start to an end, none
/// longer than a maximum number of seconds.
#[derive(Debug, PartialEq, Eq)]
pub struct TimeRanges {
    start: Decimal,
    max_step_size: usize,
    end: NonZeroDecimal,
}

impl View for TimeRanges {
    /// Cursor, maximum step in seconds, end.
    type V = (int, int, int);

    closed spec fn view(&self) -> (int, int, int) {
        (self.start@, self.max_step_size as int, self.end@)
    }
}

impl TimeRanges {
    /// The cursor has not passed the end, the step is positive and the end
    /// is not zero.
    pub open spec fn wf(&self) -> bool {
        &&& self.parts_wf()
        &&& self@.0 <= self@.2
        &&& self@.1 > 0
        &&& self@.2 != 0
    }

    /// Cursor and end are well-formed numbers.
    pub closed spec fn parts_wf(&self) -> bool {
        self.start.wf() && self.end.wf()
    }

    /// A sequence from `start` to `end`; none where `end` does not exceed
    /// `start`, `end` is zero, or the step is zero.
    pub fn try_new(start: Decimal, max_step_size: usize, end: Decimal) -> (r: Option<TimeRanges>)
        ensures
            r is Some <==> bounds_ok(start@, max_step_size as int, end@),
            r matches Some(t) ==> t.wf() && t@ == (start@, max_step_size as int, end@),
    {
        proof {
            use_type_invariant(&start);
        }
        let end = match NonZeroDecimal::try_new(end) {
            Some(e) => e,
            None => return None,
        };
        if end.get().le(&start) {
            return None;
        }
        if max_step_size == 0 {
            return None;
        }
        Some(TimeRanges { start, max_step_size, end })
    }

    /// The end of the whole sequence.
    pub fn end(&self) -> (r: Decimal)
        ensures
            r@ == self@.2,
    {
        self.end.get()
    }

    /// The next window, or none once the cursor has reached the end.
    pub fn next(&mut self) -> (r: Option<TimeRange>)
        requires
            old(self).wf(),
        ensures
            final(self).wf(),
            final(self)@.1 == old(self)@.1,
            final(self)@.2 == old(self)@.2,
            old(self)@.0 == old(self)@.2 ==> r is None && final(self)@ == old(self)@,
            old(self)@.0 < old(self)@.2 ==> final(self)@.0 == next_bound(
                old(self)@.0,
                old(self)@.1,
                old(self)@.2,
            ) && final(self)@.0 > old(self)@.0,
            r is None <==> (old(self)@.0 == old(self)@.2 || final(self)@.0 == 0),
            r matches Some(w) ==> w.wf() && w@ == (old(self)@.0, final(self)@.0),
            windows_from(old(self)@.0, old(self)@.1, old(self)@.2) == match r {
                Some(w) => seq![w@] + windows_from(final(self)@.0, final(self)@.1, final(self)@.2),
                None => Seq::<(int, int)>::empty(),
            },
    {
        let start = self.start;
        let end = self.end.get();
        let (q, f) = start.split();
        let (qe, fe) = end.split();
        proof {
            lemma_split_order(q as int, f as int, qe as int, fe as int, ONE as int);
        }
        if q == qe && f == fe {
            return None;
        }
        proof {
            lemma_next_bound_advances(start@, self.max_step_size as int, end@);
        }
        let c = q + self.max_step_size as i128;
        let up = !(2 * f < ONE || (2 * f == ONE && c.checked_rem_euclid(2).unwrap() == 0));
        let n = if up {
            c + 1
        } else {
            c
        };
        proof {
            assert(start@ + self.max_step_size * ONE == c * ONE + f) by (nonlinear_arith)
                requires start@ == q * ONE + f, c == q + self.max_step_size;
            lemma_round_parts(c as int, f as int, ONE as int);
            lemma_split_order(n as int, 0, qe as int, fe as int, ONE as int);
        }
        let next_start = if n <= qe {
            Decimal::from_integer(n)
        } else {
            end
        };
        self.start = next_start;
        match NonZeroDecimal::try_new(next_start) {
            Some(e) => Some(TimeRange { start, end: e }),
            None => None,
        }
    }
}


/// Views of a list of window sequences.
pub open spec fn range_views(v: Seq<TimeRanges>) -> Seq<(int, int, int)> {
    v.map_values(|t: TimeRanges| t@)
}

/// Views of a list of windows.
pub open spec fn views(v: Seq<TimeRange>) -> Seq<(int, int)> {
    v.map_values(|w: TimeRange| w@)
}

/// Whether every window of a list is well formed.
pub open spec fn all_wf(v: Seq<TimeRange>) -> bool {
    forall|i: int| 0 <= i < v.len() ==> #[trigger] v[i].wf()
}

/// The windows of each sequence, one sequence after the other.
pub open spec fn flattened(s: Seq<(int, int, int)>) -> Seq<(int, int)>
    decreases s.len(),
{
    if s.len() == 0 {
        seq![]
    } else {
        flattened(s.drop_last()) + windows_from(s.last().0, s.last().1, s.last().2)
    }
}

/// The boundary list of a plan: zero, the scene timestamps, then the end of
/// the media.
pub open spec fn bounds_of(timestamps: Seq<Decimal>, end: int) -> Seq<int> {
    seq![0int] + timestamps.map_values(|d: Decimal| d@) + seq![end]
}

/// Whether `j` is the first pair of `b` that bounds no sequence.
pub open spec fn first_failing(b: Seq<int>, step: int, j: int) -> bool {
    &&& 0 <= j < b.len() - 1
    &&& !bounds_ok(b[j], step, b[j + 1])
    &&& forall|k: int| 0 <= k < j ==> bounds_ok(#[trigger] b[k], step, b[k + 1])
}

/// Whether `e` names pair `j` of `b` as the one that bounds no sequence.
pub open spec fn reports_pair(e: Error, b: Seq<int>, step: int, j: int) -> bool {
    match e {
        Error::UnableToCreateTimeRanges(a, n, c) => a@ == b[j] && n == step && c@ == b[j + 1],
        _ => false,
    }
}

/// Drains `t` into `out`.
fn append_windows(t: TimeRanges, out: &mut Vec<TimeRange>)
    requires
        t.wf(),
        all_wf(old(out)@),
    ensures
        all_wf(final(out)@),
        views(final(out)@) == views(old(out)@) + windows_from(t@.0, t@.1, t@.2),
{
    let ghost t0 = t@;
    let ghost out0 = views(out@);
    let mut t = t;
    let mut done = false;
    while !done
        invariant
            t.wf(),
            t@.1 == t0.1,
            t@.2 == t0.2,
            t0.0 <= t@.0,
            all_wf(out@),
            views(out@) + (if done {
                Seq::<(int, int)>::empty()
            } else {
                windows_from(t@.0, t@.1, t@.2)
            }) == out0 + windows_from(t0.0, t0.1, t0.2),
        decreases t@.2 - t@.0 + (if done {
            0int
        } else {
            1int
        }),
    {
        let ghost before = views(out@);
        match t.next() {
            Some(w) => {
                out.push(w);
                proof {
                    assert(views(out@) =~= before.push(w@));
                    assert(before + (seq![w@] + windows_from(t@.0, t@.1, t@.2)) =~= before.push(w@)
                        + windows_from(t@.0, t@.1, t@.2));
                }
            },
            None => {
                done = true;
                proof {
                    assert(before + Seq::<(int, int)>::empty() =~= before);
                }
            },
        }
    }
    proof {
        assert(views(out@) + Seq::<(int, int)>::empty() =~= views(out@));
    }
}

/// All windows of `ranges`, sequence after sequence.
pub fn flatten(ranges: Vec<TimeRanges>) -> (r: Vec<TimeRange>)
    requires
        forall|i: int| 0 <= i < ranges.len() ==> #[trigger] ranges[i].wf(),
    ensures
        all_wf(r@),
        views(r@) == flattened(range_views(ranges@)),
{
    let ghost all = range_views(ranges@);
    let mut rest = ranges;
    let mut out: Vec<TimeRange> = Vec::new();
    let ghost mut k: int = 0;
    proof {
        assert(all.take(0) =~= Seq::<(int, int, int)>::empty());
        assert(views(out@) =~= Seq::<(int, int)>::empty());
    }
    while rest.len() > 0
        invariant
            0 <= k <= all.len(),
            range_views(rest@) =~= all.skip(k),
            forall|i: int| 0 <= i < rest.len() ==> #[trigger] rest[i].wf(),
            all_wf(out@),
            views(out@) == flattened(all.take(k)),
        decreases rest.len(),
    {
        let ghost rest0 = rest@;
        proof {
            assert(range_views(rest0).len() == rest0.len());
            assert(all.skip(k).len() == all.len() - k);
            assert(range_views(rest0)[0] == rest0[0]@);
            assert(all.skip(k)[0] == all[k]);
        }
        let t = rest.remove(0);
        assert(rest0[0] == t);
        append_windows(t, &mut out);
        proof {
            assert(all.take(k + 1).drop_last() =~= all.take(k));
            assert(all[k] == t@);
            let old_skip = all.skip(k);
            assert forall|i: int| 0 <= i < rest.len() implies #[trigger] range_views(rest@)[i] == all.skip(k + 1)[i] by {
                assert(rest[i] == rest0[i + 1]);
                assert(old_skip[i + 1] == range_views(rest0)[i + 1]);
            }
            k = k + 1;
            assert(range_views(rest@) =~= all.skip(k));
            assert forall|i: int| 0 <= i < rest.len() implies #[trigger] rest[i].wf() by {
                assert(rest[i] == rest0[i + 1]);
            }
        }
    }
    proof {
        assert(all.take(k) =~= all);
    }
    out
}

/// Appends the windows from `start` to `end`, or reports the pair.
fn append_pair(start: Decimal, max_step_size: usize, end: Decimal, out: &mut Vec<TimeRange>) -> (r:
    Result<(), Error>)
    requires
        all_wf(old(out)@),
    ensures
        all_wf(final(out)@),
        r is Ok <==> bounds_ok(start@, max_step_size as int, end@),
        r is Ok ==> views(final(out)@) == views(old(out)@) + windows_from(
            start@,
            max_step_size as int,
            end@,
        ),
        r is Err ==> (r matches Err(Error::UnableToCreateTimeRanges(a, n, b)) && a@ == start@ && n
            == max_step_size && b@ == end@),
{
    match TimeRanges::try_new(start, max_step_size, end) {
        None => Err(Error::UnableToCreateTimeRanges(start, max_step_size, end)),
        Some(t) => {
            append_windows(t, out);
            Ok(())
        },
    }
}

/// The global window plan: one sequence per consecutive pair of boundaries
/// (zero, the scene timestamps, the media end), flattened in boundary order.
/// Fails on the first pair that bounds no sequence.
pub fn plan_windows(timestamps: &Vec<Decimal>, end: Decimal, max_step_size: usize) -> (r: Result<
    Vec<TimeRange>,
    Error,
>)
    ensures
        r is Ok <==> forall|j: int|
            0 <= j <= timestamps.len() ==> bounds_ok(
                #[trigger] bounds_of(timestamps@, end@)[j],
                max_step_size as int,
                bounds_of(timestamps@, end@)[j + 1],
            ),
        r matches Ok(v) ==> all_wf(v@) && views(v@) == plan_of(
            bounds_of(timestamps@, end@),
            max_step_size as int,
        ),
        r matches Err(e) ==> exists|j: int|
            #[trigger] first_failing(bounds_of(timestamps@, end@), max_step_size as int, j)
                && reports_pair(e, bounds_of(timestamps@, end@), max_step_size as int, j),
{
    let ghost b = bounds_of(timestamps@, end@);
    let n = timestamps.len();
    let mut out: Vec<TimeRange> = Vec::new();
    let mut prev = Decimal::zero();
    let mut i: usize = 0;
    proof {
        assert(plan_of(b.take(1), max_step_size as int) =~= Seq::<(int, int)>::empty());
        assert(views(out@) =~= Seq::<(int, int)>::empty());
    }
    while i <= n
        invariant
            0 <= i <= n + 1,
            n == timestamps.len(),
            b == bounds_of(timestamps@, end@),
            b.len() == n + 2,
            i <= n ==> prev@ == b[i as int],
            all_wf(out@),
            views(out@) == plan_of(b.take(i + 1), max_step_size as int),
            forall|k: int|
                0 <= k < i ==> bounds_ok(#[trigger] b[k], max_step_size as int, b[k + 1]),
        decreases n + 1 - i,
    {
        let next = if i < n {
            timestamps[i]
        } else {
            end
        };
        assert(b[i + 1] == next@);
        let ghost before = views(out@);
        match append_pair(prev, max_step_size, next, &mut out) {
            Err(e) => {
                assert(first_failing(b, max_step_size as int, i as int));
                assert(reports_pair(e, b, max_step_size as int, i as int));
                return Err(e);
            },
            Ok(()) => {
                proof {
                    let tk = b.take(i + 2);
                    assert(tk.drop_last() =~= b.take(i + 1));
                    assert(tk[tk.len() - 2] == b[i as int]);
                    assert(tk[tk.len() - 1] == b[i + 1]);
                }
            },
        }
        prev = next;
        if i == n {
            proof {
                assert(b.take(i + 2) =~= b);
            }
            return Ok(out);
        }
        i = i + 1;
    }
    proof {
        assert(b.take(i + 1) =~= b);
    }
    Ok(out)
}

/// The windows still to process when `existing` clips are already encoded,
/// each with its index in the plan.
pub fn pending_windows(plan: &Vec<TimeRange>, existing: usize) -> (r: Vec<(usize, TimeRange)>)
    ensures
        r.len() == (if existing <= plan.len() {
            plan.len() - existing
        } else {
            0
        }),
        forall|j: int|
            0 <= j < r.len() ==> #[trigger] r[j].0 == existing + j && r[j].1 == plan[existing + j],
{
    let mut r: Vec<(usize, TimeRange)> = Vec::new();
    let mut i: usize = existing;
    while i < plan.len()
        invariant
            existing <= i,
            i <= plan.len() || (i == existing && r.len() == 0),
            r.len() == i - existing,
            forall|j: int|
                0 <= j < r.len() ==> #[trigger] r[j].0 == existing + j && r[j].1 == plan[existing + j],
        decreases plan.len() - i,
    {
        r.push((i, plan[i]));
        i = i + 1;
    }
    r
}

/// Every window of a sequence with a non-negative start is non-empty, the
/// first starts at the start, each starts where the one before ended, and the
/// last ends exactly at the end.
pub proof fn lemma_windows_cover(start: int, step: int, end: int)
    requires
        0 <= start < end,
        step >= 1,
    ensures
        windows_from(start, step, end).len() > 0,
        windows_from(start, step, end)[0].0 == start,
        windows_from(start, step, end).last().1 == end,
        forall|i: int|
            0 <= i < windows_from(start, step, end).len() ==> #[trigger] windows_from(
                start,
                step,
                end,
            )[i].0 < windows_from(start, step, end)[i].1,
        contiguous(windows_from(start, step, end)),
    decreases end - start,
{
    lemma_next_bound_advances(start, step, end);
    let n = next_bound(start, step, end);
    let w = windows_from(start, step, end);
    if n < end {
        lemma_windows_cover(n, step, end);
        let rest = windows_from(n, step, end);
        assert(w == seq![(start, n)] + rest);
        assert forall|i: int| 0 <= i < w.len() - 1 implies #[trigger] w[i].1 == w[i + 1].0 by {
            if i > 0 {
                assert(w[i] == rest[i - 1]);
                assert(w[i + 1] == rest[i]);
            }
        }
        assert forall|i: int| 0 <= i < w.len() implies #[trigger] w[i].0 < w[i].1 by {
            if i > 0 {
                assert(w[i] == rest[i - 1]);
            }
        }
    } else {
        assert(windows_from(n, step, end) =~= Seq::<(int, int)>::empty());
        assert(w =~= seq![(start, n)]);
    }
}

/// A window longer than half a millisecond has a positive duration.
pub proof fn lemma_duration_positive(w: (int, int))
    requires
        2 * (w.1 - w.0) > millisecond(),
    ensures
        duration_units(w) > 0,
{
    let q = millisecond();
    lemma_pow10_positive(25);
    let u = w.1 - w.0;
    lemma_round_bounds(u, q);
    let r = round_to_multiple(u, q);
    if u >= q {
        assert(2 * r >= 2 * u - q);
    } else {
        assert(u / q == 0) by (nonlinear_arith)
            requires 0 <= u < q;
        assert(u % q == u) by (nonlinear_arith)
            requires 0 <= u < q;
    }
}

/// Whether consecutive windows meet: each starts where the one before ended.
pub open spec fn contiguous(w: Seq<(int, int)>) -> bool {
    forall|i: int| 0 <= i < w.len() - 1 ==> #[trigger] w[i].1 == w[i + 1].0
}

/// For boundaries that start at or above zero and strictly increase, the
/// flattened plan is contiguous and exhaustive: it starts at the first
/// boundary, each window starts where the one before ended, every window is
/// non-empty, and the last ends exactly at the last boundary.
pub proof fn lemma_plan_covers(bounds: Seq<int>, step: int)
    requires
        bounds.len() >= 2,
        bounds[0] >= 0,
        forall|i: int| 0 <= i < bounds.len() - 1 ==> #[trigger] bounds[i] < bounds[i + 1],
        step >= 1,
    ensures
        plan_of(bounds, step).len() > 0,
        plan_of(bounds, step)[0].0 == bounds[0],
        plan_of(bounds, step).last().1 == bounds.last(),
        contiguous(plan_of(bounds, step)),
        forall|i: int|
            0 <= i < plan_of(bounds, step).len() ==> #[trigger] plan_of(bounds, step)[i].0
                < plan_of(bounds, step)[i].1,
    decreases bounds.len(),
{
    let n = bounds.len();
    let head = bounds.drop_last();
    let a = bounds[n - 2];
    let b = bounds[n - 1];
    assert(bounds[n - 2] < bounds[n - 1]);
    if n > 2 {
        assert forall|i: int| 0 <= i < n - 2 implies #[trigger] bounds[i] >= 0 by {
            lemma_bounds_nonneg(bounds, i);
        }
        assert(a >= 0) by {
            lemma_bounds_nonneg(bounds, n - 2);
        }
    }
    lemma_windows_cover(a, step, b);
    let w = windows_from(a, step, b);
    if n == 2 {
        assert(plan_of(head, step) =~= Seq::<(int, int)>::empty());
        assert(plan_of(bounds, step) =~= w);
    } else {
        assert forall|i: int| 0 <= i < head.len() - 1 implies #[trigger] head[i] < head[i + 1] by {
            assert(head[i] == bounds[i]);
            assert(head[i + 1] == bounds[i + 1]);
        }
        lemma_plan_covers(head, step);
        let p = plan_of(head, step);
        let all = plan_of(bounds, step);
        assert(all == p + w);
        assert(p.last().1 == a);
        assert forall|i: int| 0 <= i < all.len() - 1 implies #[trigger] all[i].1 == all[i + 1].0 by {
            if i < p.len() - 1 {
                assert(all[i] == p[i]);
                assert(all[i + 1] == p[i + 1]);
            } else if i == p.len() - 1 {
                assert(all[i] == p.last());
                assert(all[i + 1] == w[0]);
            } else {
                assert(all[i] == w[i - p.len()]);
                assert(all[i + 1] == w[i - p.len() + 1]);
            }
        }
        assert forall|i: int| 0 <= i < all.len() implies #[trigger] all[i].0 < all[i].1 by {
            if i < p.len() {
                assert(all[i] == p[i]);
            } else {
                assert(all[i] == w[i - p.len()]);
            }
        }
        assert(all[0] == p[0]);
        assert(all.last() == w.last());
    }
}

/// Strictly increasing boundaries that start at or above zero stay there.
proof fn lemma_bounds_nonneg(bounds: Seq<int>, i: int)
    requires
        0 <= i < bounds.len(),
        bounds[0] >= 0,
        forall|k: int| 0 <= k < bounds.len() - 1 ==> #[trigger] bounds[k] < bounds[k + 1],
    ensures
        bounds[i] >= 0,
    decreases i,
{
    if i > 0 {
        lemma_bounds_nonneg(bounds, i - 1);
        assert(bounds[i - 1] < bounds[i]);
    }
}

} // verus!
