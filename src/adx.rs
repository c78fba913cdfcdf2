use vstd::prelude::*;

use crate::fixed::{ONE, PRICE_LIMIT};
use crate::window::{
    is_window_max, is_window_min, lemma_window_max_unique, lemma_window_min_unique, window,
    tracked_max, tracked_min, window_max, window_min, MaxmimumInRange, MinimumInRange,
};

verus! {

/// Positive and negative directional movement of one step.
#[derive(Clone, Copy, Debug, PartialEq, Eq, Structural)]
pub struct DirectionalMove {
    pub plus: i64,
    pub minus: i64,
}

/// +DM: the rise of the high when it beats the fall of the low, else 0.
pub open spec fn plus_dm(curr_high: int, prev_high: int, prev_low: int, curr_low: int) -> int {
    let up = curr_high - prev_high;
    let down = prev_low - curr_low;
    if up > down && up > 0 { up } else { 0 }
}

/// -DM: the fall of the low when it beats the rise of the high, else 0.
pub open spec fn minus_dm(curr_high: int, prev_high: int, prev_low: int, curr_low: int) -> int {
    let up = curr_high - prev_high;
    let down = prev_low - curr_low;
    if down > up && down > 0 { down } else { 0 }
}

pub open spec fn in_price_range(x: int) -> bool {
    -PRICE_LIMIT <= x <= PRICE_LIMIT
}

/// Directional movement of the latest step over a history of closes, with
/// the current window being the last `p` samples and the previous window
/// the `p` samples before them; each extreme reads 0 until its tracker has
/// been filled once.
pub open spec fn directional_move_of(h: Seq<i64>, p: nat) -> DirectionalMove {
    let ch = tracked_max(h, p, 0) as int;
    let ph = tracked_max(h, 2 * p, p) as int;
    let pl = tracked_min(h, 2 * p, p) as int;
    let cl = tracked_min(h, p, 0) as int;
    DirectionalMove { plus: plus_dm(ch, ph, pl, cl) as i64, minus: minus_dm(ch, ph, pl, cl) as i64 }
}

/// Directional movement from the four window extremes.
pub fn directional_move(curr_high: i64, prev_high: i64, prev_low: i64, curr_low: i64) -> (r: DirectionalMove)
    requires
        in_price_range(curr_high as int),
        in_price_range(prev_high as int),
        in_price_range(prev_low as int),
        in_price_range(curr_low as int),
    ensures
        r.plus == plus_dm(curr_high as int, prev_high as int, prev_low as int, curr_low as int),
        r.minus == minus_dm(curr_high as int, prev_high as int, prev_low as int, curr_low as int),
        r.plus >= 0,
        r.minus >= 0,
        r.plus == 0 || r.minus == 0,
{
    let up = curr_high - prev_high;
    let down = prev_low - curr_low;
    let plus = if up > down && up > 0 { up } else { 0 };
    let minus = if down > up && down > 0 { down } else { 0 };
    DirectionalMove { plus, minus }
}

/// Directional index as a fixed-point fraction of one: |+DI - -DI| over
/// +DI + -DI, and 0 where both are 0.
pub open spec fn dx_of(pdi: int, ndi: int) -> int {
    if pdi + ndi == 0 {
        0
    } else {
        let diff = if pdi >= ndi { pdi - ndi } else { ndi - pdi };
        diff * ONE / (pdi + ndi)
    }
}

/// Directional index of smoothed +DI and -DI readings; never above one.
pub fn directional_index(pdi: u64, ndi: u64) -> (r: u64)
    ensures
        r as int == dx_of(pdi as int, ndi as int),
        r <= ONE,
{
    let sum: u128 = pdi as u128 + ndi as u128;
    if sum == 0 {
        return 0;
    }
    let diff: u128 = if pdi >= ndi { (pdi - ndi) as u128 } else { (ndi - pdi) as u128 };
    proof {
        let d = diff as int;
        let s = sum as int;
        let o = ONE as int;
        assert(d * o <= s * o) by (nonlinear_arith)
            requires d <= s, o > 0;
        assert(d * o / s <= o) by (nonlinear_arith)
            requires d * o <= s * o, s > 0, d >= 0, o > 0;
        assert(s * o <= u128::MAX) by (nonlinear_arith)
            requires s <= 0x1_ffff_ffff_ffff_fffe, o == 100_000_000;
        assert(d * o <= u128::MAX) by (nonlinear_arith)
            requires d * o <= s * o, s * o <= u128::MAX;
    }
    let r = diff * (ONE as u128) / sum;
    r as u64
}

/// Trend strength front end: window extremes over the current and the
/// previous period, turned into directional movement on each close.
pub struct AverageDirectionalMovementIndex {
    max_in_prev_range: MaxmimumInRange,
    min_in_prev_range: MinimumInRange,
    max_in_curr_range: MaxmimumInRange,
    min_in_curr_range: MinimumInRange,
    period_length: u64,
    num_periods: u64,
}

impl AverageDirectionalMovementIndex {
    /// Closes seen so far, oldest first.
    pub closed spec fn history(&self) -> Seq<i64> {
        self.max_in_curr_range.history()
    }

    pub closed spec fn period(&self) -> nat {
        self.period_length as nat
    }

    /// Number of periods that the smoothing of +DI, -DI and ADX spans.
    pub closed spec fn periods(&self) -> nat {
        self.num_periods as nat
    }

    pub closed spec fn wf(&self) -> bool {
        &&& self.max_in_prev_range.wf()
        &&& self.min_in_prev_range.wf()
        &&& self.max_in_curr_range.wf()
        &&& self.min_in_curr_range.wf()
        &&& self.period_length > 0
        &&& self.num_periods > 0
        &&& self.max_in_prev_range.far() == 2 * self.period_length
        &&& self.max_in_prev_range.near() == self.period_length
        &&& self.min_in_prev_range.far() == 2 * self.period_length
        &&& self.min_in_prev_range.near() == self.period_length
        &&& self.max_in_curr_range.far() == self.period_length
        &&& self.max_in_curr_range.near() == 0
        &&& self.min_in_curr_range.far() == self.period_length
        &&& self.min_in_curr_range.near() == 0
        &&& self.max_in_prev_range.history() == self.history()
        &&& self.min_in_prev_range.history() == self.history()
        &&& self.min_in_curr_range.history() == self.history()
        &&& forall|i: int| 0 <= i < self.history().len() ==> in_price_range(#[trigger] self.history()[i] as int)
    }

    pub fn new(period_length: u64, num_periods: u64) -> (r: Self)
        requires
            0 < period_length,
            0 < num_periods,
            2 * period_length <= usize::MAX,
        ensures
            r.wf(),
            r.period() == period_length,
            r.periods() == num_periods,
            r.history() == Seq::<i64>::empty(),
    {
        AverageDirectionalMovementIndex {
            max_in_prev_range: MaxmimumInRange::new(2 * period_length, period_length),
            min_in_prev_range: MinimumInRange::new(2 * period_length, period_length),
            max_in_curr_range: MaxmimumInRange::new(period_length, 0),
            min_in_curr_range: MinimumInRange::new(period_length, 0),
            period_length,
            num_periods,
        }
    }

    /// Feeds one close and returns the directional movement of this step.
    pub fn next(&mut self, input: i64) -> (r: DirectionalMove)
        requires
            old(self).wf(),
            in_price_range(input as int),
        ensures
            final(self).wf(),
            final(self).period() == old(self).period(),
            final(self).periods() == old(self).periods(),
            final(self).history() == old(self).history().push(input),
            r == directional_move_of(final(self).history(), final(self).period()),
    {
        let ghost h = self.history().push(input);
        let prev_high = self.max_in_prev_range.next(input);
        let prev_low = self.min_in_prev_range.next(input);
        let curr_high = self.max_in_curr_range.next(input);
        let curr_low = self.min_in_curr_range.next(input);
        proof {
            let p = self.period_length as nat;
            assert(forall|i: int| 0 <= i < h.len() ==> in_price_range(#[trigger] h[i] as int));
            lemma_tracked(h, p, 0, curr_high, true);
            lemma_tracked(h, 2 * p, p, prev_high, true);
            lemma_tracked(h, 2 * p, p, prev_low, false);
            lemma_tracked(h, p, 0, curr_low, false);
        }
        directional_move(curr_high, prev_high, prev_low, curr_low)
    }
}

proof fn lemma_tracked(h: Seq<i64>, far: nat, near: nat, r: i64, is_max: bool)
    requires
        near < far,
        h.len() < far ==> r == 0,
        h.len() >= far && is_max ==> is_window_max(window(h, far, near), r),
        h.len() >= far && !is_max ==> is_window_min(window(h, far, near), r),
        forall|i: int| 0 <= i < h.len() ==> in_price_range(#[trigger] h[i] as int),
    ensures
        is_max ==> r == tracked_max(h, far, near),
        !is_max ==> r == tracked_min(h, far, near),
        in_price_range(r as int),
{
    if h.len() >= far {
        let w = window(h, far, near);
        assert forall|i: int| 0 <= i < w.len() implies in_price_range(#[trigger] w[i] as int) by {
            assert(w[i] == h[i + (h.len() - far)]);
        }
        if is_max {
            lemma_window_max_unique(w, r);
        } else {
            lemma_window_min_unique(w, r);
        }
        lemma_extreme_in_range(w, r, is_max);
    }
}

proof fn lemma_extreme_in_range(w: Seq<i64>, r: i64, is_max: bool)
    requires
        is_max ==> is_window_max(w, r),
        !is_max ==> is_window_min(w, r),
        forall|i: int| 0 <= i < w.len() ==> in_price_range(#[trigger] w[i] as int),
    ensures
        in_price_range(r as int),
{
    if w.len() > 0 {
        let i = choose|i: int| 0 <= i < w.len() && w[i] == r;
        assert(in_price_range(w[i] as int));
    }
}

} // verus!
