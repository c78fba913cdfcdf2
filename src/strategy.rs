use vstd::prelude::*;

use crate::fixed::ONE;

verus! {

/// ADX level above which a trend counts as strong: 25, in fixed point.
pub const ADX_THRESHOLD: i64 = 25 * ONE;

/// The strategies that a slot can run.
#[derive(Clone, Copy, Debug, PartialEq, Eq, Structural)]
pub enum StrategyKind {
    /// Short EMA against long SMA.
    EmaSmaCrossover,
    /// Short SMA against long SMA.
    SmaCrossover,
    /// Short EMA against long SMA, entering only in a strong trend.
    EmaSmaAdx,
    /// Long while the trend is strong.
    Adx,
}

/// Indicator values of one strategy after the latest close, fixed-point.
/// `short_avg` and `long_avg` are the two moving averages (unused by `Adx`);
/// `adx` is the trend strength on a 0 to 100 scale (unused by crossovers).
#[derive(Clone, Copy, Debug, PartialEq, Eq, Structural)]
pub struct Readings {
    pub short_avg: i64,
    pub long_avg: i64,
    pub adx: i64,
}

/// LONG (1) when the short average is above the long one, else FLAT (0).
pub open spec fn crossover_spec(short_avg: i64, long_avg: i64) -> i8 {
    if short_avg > long_avg { 1 } else { 0 }
}

pub open spec fn signal_spec(kind: StrategyKind, r: Readings) -> i8 {
    match kind {
        StrategyKind::EmaSmaCrossover => crossover_spec(r.short_avg, r.long_avg),
        StrategyKind::SmaCrossover => crossover_spec(r.short_avg, r.long_avg),
        StrategyKind::EmaSmaAdx => if r.short_avg > r.long_avg && r.adx > ADX_THRESHOLD { 1 } else { 0 },
        StrategyKind::Adx => if r.adx > ADX_THRESHOLD { 1 } else { 0 },
    }
}

pub fn crossover_signal(short_avg: i64, long_avg: i64) -> (r: i8)
    ensures
        r == crossover_spec(short_avg, long_avg),
{
    if short_avg > long_avg { 1 } else { 0 }
}

/// The signal that a strategy of `kind` gives on `readings`: LONG (1) or
/// FLAT (0), nothing else.
pub fn signal_for(kind: StrategyKind, readings: Readings) -> (r: i8)
    ensures
        r == signal_spec(kind, readings),
        r == 0 || r == 1,
{
    match kind {
        StrategyKind::EmaSmaCrossover => crossover_signal(readings.short_avg, readings.long_avg),
        StrategyKind::SmaCrossover => crossover_signal(readings.short_avg, readings.long_avg),
        StrategyKind::EmaSmaAdx => {
            if readings.short_avg > readings.long_avg && readings.adx > ADX_THRESHOLD { 1 } else { 0 }
        },
        StrategyKind::Adx => if readings.adx > ADX_THRESHOLD { 1 } else { 0 },
    }
}

/// One signal per strategy slot, in registration order.
pub fn run_all(kinds: &Vec<StrategyKind>, readings: &Vec<Readings>) -> (r: Vec<i8>)
    requires
        kinds.len() == readings.len(),
    ensures
        r@.len() == kinds@.len(),
        forall|i: int| 0 <= i < r@.len() ==> #[trigger] r@[i] == signal_spec(kinds@[i], readings@[i]),
{
    let mut out: Vec<i8> = Vec::new();
    let mut i: usize = 0;
    while i < kinds.len()
        invariant
            kinds.len() == readings.len(),
            i <= kinds.len(),
            out@.len() == i,
            forall|j: int| 0 <= j < i ==> #[trigger] out@[j] == signal_spec(kinds@[j], readings@[j]),
        decreases kinds.len() - i,
    {
        out.push(signal_for(kinds[i], readings[i]));
        i = i + 1;
    }
    out
}

} // verus!
