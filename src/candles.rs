use vstd::prelude::*;

verus! {

/// One OHLCV bar of a ticker; prices and volume are fixed-point.
pub struct KLineMinute {
    pub start_time: u64,
    pub end_time: u64,
    pub symbol: String,
    pub open: i64,
    pub high: i64,
    pub low: i64,
    pub close: i64,
    pub quantity: i64,
    pub num_trades: u64,
    pub closed: bool,
}

/// The last `limit` entries of `s` (all of them when there are fewer).
pub open spec fn last_n<T>(s: Seq<T>, limit: nat) -> Seq<T> {
    if s.len() > limit { s.subrange(s.len() - limit, s.len() as int) } else { s }
}

/// Closed bars of one ticker, oldest first, holding at most `limit_len`.
pub struct CandleHistory {
    bars: Vec<KLineMinute>,
    limit_len: usize,
    appended: Ghost<Seq<KLineMinute>>,
}

impl CandleHistory {
    pub closed spec fn view(&self) -> Seq<KLineMinute> {
        self.bars@
    }

    pub closed spec fn limit(&self) -> nat {
        self.limit_len as nat
    }

    /// Every closed bar ever appended, oldest first.
    pub closed spec fn appended(&self) -> Seq<KLineMinute> {
        self.appended@
    }

    pub closed spec fn wf(&self) -> bool {
        &&& self.limit_len > 0
        &&& self.bars@ == last_n(self.appended@, self.limit_len as nat)
    }

    pub fn new(limit_len: usize) -> (r: Self)
        requires
            limit_len > 0,
        ensures
            r.wf(),
            r.limit() == limit_len,
            r@ == Seq::<KLineMinute>::empty(),
            r.appended() == Seq::<KLineMinute>::empty(),
    {
        CandleHistory { bars: Vec::new(), limit_len, appended: Ghost(Seq::empty()) }
    }

    /// A history whose capacity is the lookback span divided by the bar
    /// period; `None` when that leaves no room for a single bar.
    pub fn with_lookback(max_lookback_ms: u64, period_ms: u64) -> (r: Option<Self>)
        requires
            period_ms > 0,
        ensures
            r is None <==> max_lookback_ms / period_ms == 0 || max_lookback_ms / period_ms > usize::MAX,
            r matches Some(h) ==> h.wf() && h.limit() == max_lookback_ms / period_ms && h@.len() == 0
                && h.appended().len() == 0,
    {
        let n = max_lookback_ms / period_ms;
        if n == 0 || n as u128 > usize::MAX as u128 {
            None
        } else {
            Some(CandleHistory::new(n as usize))
        }
    }

    pub fn len(&self) -> (r: usize)
        ensures
            r == self@.len(),
    {
        self.bars.len()
    }

    pub fn limit_len(&self) -> (r: usize)
        ensures
            r == self.limit(),
    {
        self.limit_len
    }

    /// The bar at `i`, oldest first.
    pub fn get(&self, i: usize) -> (r: &KLineMinute)
        requires
            i < self@.len(),
        ensures
            *r == self@[i as int],
    {
        &self.bars[i]
    }

    /// The newest bar, if any.
    pub fn latest(&self) -> (r: Option<&KLineMinute>)
        ensures
            self@.len() == 0 ==> r is None,
            self@.len() > 0 ==> r == Some(&self@.last()),
    {
        if self.bars.len() == 0 {
            None
        } else {
            Some(&self.bars[self.bars.len() - 1])
        }
    }

    /// Takes one candle update. A bar that is not closed is dropped; a closed
    /// one is appended and the oldest bar is evicted beyond `limit_len`.
    /// Returns whether the strategies should run on this bar: it is closed and
    /// the history is full.
    pub fn append(&mut self, candle: KLineMinute) -> (ready: bool)
        requires
            old(self).wf(),
        ensures
            final(self).wf(),
            final(self).limit() == old(self).limit(),
            !candle.closed ==> final(self)@ == old(self)@ && final(self).appended() == old(self).appended(),
            candle.closed ==> final(self).appended() == old(self).appended().push(candle),
            candle.closed ==> final(self)@ == last_n(old(self)@.push(candle), old(self).limit()),
            ready == (candle.closed && final(self)@.len() == final(self).limit()),
    {
        if !candle.closed {
            return false;
        }
        let ghost c = candle;
        self.bars.push(candle);
        self.appended = Ghost(self.appended@.push(c));
        if self.bars.len() > self.limit_len {
            self.bars.remove(0);
        }
        proof {
            let a = self.appended@;
            let l = self.limit_len as nat;
            let ob = old(self).bars@;
            if ob.push(c).len() > l {
                assert(self.bars@ =~= ob.push(c).subrange(1, ob.push(c).len() as int));
                assert(last_n(a, l) =~= ob.push(c).subrange(1, ob.push(c).len() as int));
            } else {
                assert(last_n(a, l) =~= ob.push(c));
            }
            assert(self.bars@ =~= last_n(ob.push(c), l));
        }
        self.bars.len() == self.limit_len
    }
}

/// A history never holds more than `limit_len` bars, and it holds the newest
/// closed bars ever appended, in order.
pub proof fn lemma_history_bounded(h: CandleHistory)
    requires
        h.wf(),
    ensures
        h@.len() <= h.limit(),
        h@ == last_n(h.appended(), h.limit()),
{
}

/// Appending a closed bar to a full history evicts exactly the oldest bar.
pub proof fn lemma_evicts_oldest(before: CandleHistory, after: CandleHistory, c: KLineMinute)
    requires
        before.wf(),
        after.wf(),
        before@.len() == before.limit(),
        c.closed,
        after.limit() == before.limit(),
        after@ == last_n(before@.push(c), before.limit()),
    ensures
        after@ == before@.drop_first().push(c),
        after@.len() == before@.len(),
{
    assert(after@ =~= before@.drop_first().push(c));
}

} // verus!
