use vstd::prelude::*;

use crate::orders::{MarketRequest, SENTINEL};

verus! {

/// Signal of a strategy that wants to hold the base currency.
pub const FLAT: i8 = 0;

/// Signal of a strategy that wants to hold the ticker's asset.
pub const LONG: i8 = 1;

/// The state a slot moves to on `signal` for ticker `ticker` (0-based), or
/// `None` when it holds: a slot in cash enters on LONG; a slot holding this
/// ticker (state `ticker + 1`) exits on FLAT; nothing else moves.
pub open spec fn target_status(status: int, signal: i8, ticker: int) -> Option<int> {
    if signal == LONG && status == 0 {
        Some(ticker + 1)
    } else if signal == FLAT && status != 0 && status == ticker + 1 {
        Some(0)
    } else {
        None
    }
}

/// Sum of the weights of the slots among the first `n` whose state is `k`.
pub open spec fn pooled_weight(split: Seq<u64>, status: Seq<usize>, k: int, n: int) -> int
    decreases n,
{
    if n <= 0 {
        0
    } else {
        pooled_weight(split, status, k, n - 1) + if status[n - 1] == k { split[n - 1] as int } else { 0 }
    }
}

/// Share of `balance` that slot `i` may move: its weight over the weights of
/// all slots sharing its state, rounded down; 0 when that pool weighs 0.
pub open spec fn share_of(split: Seq<u64>, status: Seq<usize>, i: int, balance: int) -> int {
    let pool = pooled_weight(split, status, status[i] as int, split.len() as int);
    if pool == 0 { 0 } else { split[i] as int * balance / pool }
}

/// An amount rounded down to a whole number of steps.
pub open spec fn quantize(amount: int, step: int) -> int {
    amount - amount % step
}

/// `amount` rounded down to a whole number of `step`s.
pub fn quantize_down(amount: u64, step: u64) -> (r: u64)
    requires
        step > 0,
    ensures
        r == quantize(amount as int, step as int),
        r <= amount,
        r % step == 0,
{
    proof {
        assert(amount % step <= amount) by (nonlinear_arith)
            requires step > 0;
        let q = (amount / step) as int;
        vstd::arithmetic::div_mod::lemma_fundamental_div_mod(amount as int, step as int);
        vstd::arithmetic::div_mod::lemma_mod_multiples_basic(q, step as int);
        assert(q * step == step * q) by (nonlinear_arith);
        assert((amount - amount % step) as int == q * step);
    }
    amount - amount % step
}

proof fn lemma_pool_bounds(split: Seq<u64>, status: Seq<usize>, k: int, n: int)
    requires
        0 <= n <= split.len(),
        split.len() == status.len(),
    ensures
        0 <= pooled_weight(split, status, k, n) <= n * u64::MAX,
    decreases n,
{
    if n > 0 {
        lemma_pool_bounds(split, status, k, n - 1);
    }
}

proof fn lemma_pool_has_member(split: Seq<u64>, status: Seq<usize>, i: int, n: int)
    requires
        0 <= i < n <= split.len(),
        split.len() == status.len(),
    ensures
        split[i] as int <= pooled_weight(split, status, status[i] as int, n),
    decreases n,
{
    if i < n - 1 {
        lemma_pool_has_member(split, status, i, n - 1);
    } else {
        lemma_pool_bounds(split, status, status[i] as int, n - 1);
    }
}

/// Exchange limits per ticker: the quantity step and the least order value.
pub struct ExchangeFilters {
    step_size: Vec<u64>,
    min_notional: Vec<u64>,
}

/// Why the exchange limits cannot be used for sizing orders.
#[derive(Clone, Copy, Debug, PartialEq, Eq, Structural)]
pub enum SetupError {
    StepSizeMissing,
    MinNotionalMissing,
}

impl ExchangeFilters {
    pub closed spec fn step_sizes(&self) -> Seq<u64> {
        self.step_size@
    }

    pub closed spec fn min_notionals(&self) -> Seq<u64> {
        self.min_notional@
    }

    pub closed spec fn wf(&self) -> bool {
        &&& self.step_size@.len() == self.min_notional@.len()
        &&& forall|k: int| 0 <= k < self.step_size@.len() ==> #[trigger] self.step_size@[k] > 0
        &&& forall|k: int| 0 <= k < self.min_notional@.len() ==> #[trigger] self.min_notional@[k] > 0
    }

    pub open spec fn len(&self) -> nat {
        self.step_sizes().len()
    }

    /// Well-formed limits hold one step size and one least order value per
    /// ticker, all of them positive.
    pub proof fn lemma_wf_positive(&self)
        requires
            self.wf(),
        ensures
            self.step_sizes().len() == self.min_notionals().len(),
            forall|k: int| 0 <= k < self.len() ==> #[trigger] self.step_sizes()[k] > 0,
            forall|k: int| 0 <= k < self.len() ==> #[trigger] self.min_notionals()[k] > 0,
    {
    }

    /// Checks the limits read from the exchange, one entry per ticker. An
    /// entry that is zero or negative was not populated: no order can be
    /// sized without it.
    pub fn new(step_size: &Vec<i64>, min_notional: &Vec<i64>) -> (r: Result<Self, SetupError>)
        requires
            step_size.len() == min_notional.len(),
        ensures
            (r matches Err(SetupError::StepSizeMissing)) <==> exists|k: int|
                0 <= k < step_size.len() && #[trigger] step_size@[k] <= 0,
            (r matches Err(SetupError::MinNotionalMissing)) <==> (forall|k: int|
                0 <= k < step_size.len() ==> #[trigger] step_size@[k] > 0) && exists|k: int|
                0 <= k < min_notional.len() && #[trigger] min_notional@[k] <= 0,
            r matches Ok(f) ==> f.wf() && f.len() == step_size.len() && (forall|k: int|
                0 <= k < step_size.len() ==> f.step_sizes()[k] == step_size@[k] && f.min_notionals()[k]
                == min_notional@[k]),
    {
        let mut steps: Vec<u64> = Vec::new();
        let mut k: usize = 0;
        while k < step_size.len()
            invariant
                k <= step_size.len(),
                steps@.len() == k,
                forall|j: int| 0 <= j < k ==> #[trigger] step_size@[j] > 0,
                forall|j: int| 0 <= j < k ==> #[trigger] steps@[j] == step_size@[j],
            decreases step_size.len() - k,
        {
            if step_size[k] <= 0 {
                assert(step_size@[k as int] <= 0);
                return Err(SetupError::StepSizeMissing);
            }
            steps.push(step_size[k] as u64);
            k = k + 1;
        }
        let mut mins: Vec<u64> = Vec::new();
        let mut k: usize = 0;
        while k < min_notional.len()
            invariant
                k <= min_notional.len(),
                mins@.len() == k,
                step_size.len() == min_notional.len(),
                forall|j: int| 0 <= j < step_size.len() ==> #[trigger] step_size@[j] > 0,
                forall|j: int| 0 <= j < step_size.len() ==> #[trigger] steps@[j] == step_size@[j],
                forall|j: int| 0 <= j < k ==> #[trigger] min_notional@[j] > 0,
                forall|j: int| 0 <= j < k ==> #[trigger] mins@[j] == min_notional@[j],
            decreases min_notional.len() - k,
        {
            if min_notional[k] <= 0 {
                assert(min_notional@[k as int] <= 0);
                return Err(SetupError::MinNotionalMissing);
            }
            mins.push(min_notional[k] as u64);
            k = k + 1;
        }
        Ok(ExchangeFilters { step_size: steps, min_notional: mins })
    }
}

/// What to do about one signal for one strategy slot.
pub enum Decision {
    /// The signal does not move the slot.
    Hold,
    /// The balance to trade from was reported as unavailable.
    UnavailableBalance,
    /// The purchase would be worth no more than the exchange's least order.
    BelowMinNotional,
    /// Send `request`; once it is dispatched the slot moves to `new_status`.
    Submit { request: MarketRequest, new_status: usize },
}

/// Which asset each strategy slot holds (0: the base currency, `k`: the
/// asset of ticker `k - 1`), with the configured capital weight of each.
pub struct Portfolio {
    algo_status: Vec<usize>,
    capital_split: Vec<u64>,
    num_tickers: usize,
}

impl Portfolio {
    pub closed spec fn status(&self) -> Seq<usize> {
        self.algo_status@
    }

    pub closed spec fn split(&self) -> Seq<u64> {
        self.capital_split@
    }

    pub closed spec fn tickers(&self) -> nat {
        self.num_tickers as nat
    }

    pub closed spec fn wf(&self) -> bool {
        &&& self.algo_status@.len() == self.capital_split@.len()
        &&& self.num_tickers < usize::MAX
        &&& forall|i: int| 0 <= i < self.algo_status@.len() ==> #[trigger] self.algo_status@[i] <= self.num_tickers
    }

    /// In a well-formed portfolio each slot has a weight, and each state
    /// names the base currency or one of the tickers.
    pub proof fn lemma_wf_states(&self)
        requires
            self.wf(),
        ensures
            self.status().len() == self.split().len(),
            self.tickers() < usize::MAX,
            forall|i: int| 0 <= i < self.status().len() ==> #[trigger] self.status()[i] <= self.tickers(),
    {
    }

    /// Every slot starts in the base currency.
    pub fn new(capital_split: Vec<u64>, num_tickers: usize) -> (r: Self)
        requires
            num_tickers < usize::MAX,
        ensures
            r.wf(),
            r.split() == capital_split@,
            r.tickers() == num_tickers,
            r.status().len() == capital_split@.len(),
            forall|i: int| 0 <= i < r.status().len() ==> r.status()[i] == 0,
    {
        let algo_status = vec![0usize; capital_split.len()];
        Portfolio { algo_status, capital_split, num_tickers }
    }

    pub fn num_slots(&self) -> (r: usize)
        ensures
            r == self.status().len(),
    {
        self.algo_status.len()
    }

    pub fn status_of(&self, i: usize) -> (r: usize)
        requires
            i < self.status().len(),
        ensures
            r == self.status()[i as int],
    {
        self.algo_status[i]
    }

    /// The states of all slots, in slot order.
    pub fn statuses(&self) -> (r: Vec<usize>)
        ensures
            r@ == self.status(),
    {
        self.algo_status.clone()
    }

    /// Replaces every slot's state, as when restoring saved state. Refused,
    /// with nothing changed, unless there is one state per slot and each
    /// names the base currency or a known ticker.
    pub fn restore(&mut self, statuses: &Vec<usize>) -> (ok: bool)
        requires
            old(self).wf(),
        ensures
            final(self).wf(),
            final(self).split() == old(self).split(),
            final(self).tickers() == old(self).tickers(),
            ok == (statuses@.len() == old(self).status().len() && forall|i: int|
                0 <= i < statuses@.len() ==> #[trigger] statuses@[i] <= old(self).tickers()),
            ok ==> final(self).status() == statuses@,
            !ok ==> final(self).status() == old(self).status(),
    {
        if statuses.len() != self.algo_status.len() {
            return false;
        }
        let mut i: usize = 0;
        while i < statuses.len()
            invariant
                *self == *old(self),
                self.wf(),
                i <= statuses@.len(),
                forall|j: int| 0 <= j < i ==> #[trigger] statuses@[j] <= self.num_tickers,
            decreases statuses.len() - i,
        {
            if statuses[i] > self.num_tickers {
                return false;
            }
            i = i + 1;
        }
        self.algo_status = statuses.clone();
        true
    }

    /// Whether `signal` on ticker `ticker_index` moves slot `i`.
    pub fn wants_to_move(&self, i: usize, signal: i8, ticker_index: usize) -> (r: bool)
        requires
            self.wf(),
            i < self.status().len(),
            ticker_index < self.tickers(),
        ensures
            r == target_status(self.status()[i as int] as int, signal, ticker_index as int) is Some,
    {
        let st = self.algo_status[i];
        (signal == LONG && st == 0) || (signal == FLAT && st != 0 && st == ticker_index + 1)
    }

    /// Moves slot `i` to `new_status`, once its order has been dispatched.
    pub fn commit(&mut self, i: usize, new_status: usize)
        requires
            old(self).wf(),
            i < old(self).status().len(),
            new_status <= old(self).tickers(),
        ensures
            final(self).wf(),
            final(self).split() == old(self).split(),
            final(self).tickers() == old(self).tickers(),
            final(self).status() == old(self).status().update(i as int, new_status),
    {
        self.algo_status.set(i, new_status);
    }

    /// Sum of the weights of the slots whose state is `k`.
    pub fn pooled_weight(&self, k: usize) -> (r: u128)
        requires
            self.wf(),
        ensures
            r == pooled_weight(self.split(), self.status(), k as int, self.split().len() as int),
    {
        let mut acc: u128 = 0;
        let mut j: usize = 0;
        while j < self.capital_split.len()
            invariant
                j <= self.capital_split@.len(),
                self.capital_split@.len() == self.algo_status@.len(),
                acc == pooled_weight(self.capital_split@, self.algo_status@, k as int, j as int),
            decreases self.capital_split.len() - j,
        {
            proof {
                lemma_pool_bounds(self.capital_split@, self.algo_status@, k as int, j as int + 1);
                assert((j as int + 1) * u64::MAX <= u128::MAX) by (nonlinear_arith)
                    requires j < usize::MAX;
            }
            if self.algo_status[j] == k {
                acc = acc + self.capital_split[j] as u128;
            }
            j = j + 1;
        }
        acc
    }

    /// The part of `balance` that slot `i` may move.
    pub fn relative_amount(&self, i: usize, balance: u64) -> (r: u64)
        requires
            self.wf(),
            i < self.status().len(),
        ensures
            r == share_of(self.split(), self.status(), i as int, balance as int),
            r <= balance,
    {
        let pool = self.pooled_weight(self.algo_status[i]);
        if pool == 0 {
            return 0;
        }
        proof {
            lemma_pool_has_member(self.split(), self.status(), i as int, self.split().len() as int);
        }
        let w = self.capital_split[i] as u128;
        proof {
            assert(w * (balance as u128) <= u64::MAX * u64::MAX) by (nonlinear_arith)
                requires w <= u64::MAX, balance <= u64::MAX;
            assert(w * (balance as int) / (pool as int) <= balance as int) by (nonlinear_arith)
                requires w <= pool, pool > 0, balance >= 0;
        }
        let r = w * (balance as u128) / pool;
        r as u64
    }

    /// Decides what slot `i` does about `signal` on ticker `ticker_index`,
    /// with the balances just read (index 0: base currency, `k`: the asset of
    /// ticker `k - 1`; negative: unavailable).
    pub fn plan_transition(
        &self,
        i: usize,
        signal: i8,
        ticker_index: usize,
        symbol: &str,
        balances: &Vec<i64>,
        filters: &ExchangeFilters,
        timestamp: u64,
    ) -> (r: Decision)
        requires
            self.wf(),
            i < self.status().len(),
            ticker_index < self.tickers(),
            balances@.len() == self.tickers() + 1,
            filters.wf(),
            filters.len() == self.tickers(),
        ensures
            ({
                let st = self.status()[i as int] as int;
                let target = target_status(st, signal, ticker_index as int);
                let bal = balances@[st] as int;
                let amt = share_of(self.split(), self.status(), i as int, bal);
                &&& target is None <==> r is Hold
                &&& target is Some && bal < 0 <==> r is UnavailableBalance
                &&& (r is BelowMinNotional) <==> (target == Some(ticker_index as int + 1) && bal >= 0
                    && amt <= filters.min_notionals()[ticker_index as int])
                &&& r matches Decision::Submit { request, new_status } ==> {
                    &&& request.wf()
                    &&& request.symbol@ == symbol@
                    &&& request.timestamp == timestamp
                    &&& target == Some(new_status as int)
                    &&& new_status != 0 ==> request.side@ == "BUY"@ && request.quantity == SENTINEL
                        && request.quote_order_qty == amt
                    &&& new_status == 0 ==> request.side@ == "SELL"@ && request.quote_order_qty
                        == SENTINEL && request.quantity == quantize(
                        amt,
                        filters.step_sizes()[ticker_index as int] as int,
                    )
                }
            }),
    {
        let st = self.algo_status[i];
        let entering = signal == LONG && st == 0;
        let exiting = signal == FLAT && st != 0 && st == ticker_index + 1;
        if !entering && !exiting {
            return Decision::Hold;
        }
        let bal = balances[st];
        if bal < 0 {
            return Decision::UnavailableBalance;
        }
        let amt = self.relative_amount(i, bal as u64);
        if entering {
            if amt <= filters.min_notional[ticker_index] {
                return Decision::BelowMinNotional;
            }
            Decision::Submit {
                request: MarketRequest::buy(symbol, timestamp, amt as i64),
                new_status: ticker_index + 1,
            }
        } else {
            let step = filters.step_size[ticker_index];
            proof {
                assert(filters.step_size@[ticker_index as int] > 0);
            }
            let q = quantize_down(amt, step);
            Decision::Submit { request: MarketRequest::sell(symbol, timestamp, q as i64), new_status: 0 }
        }
    }
}

/// A slot in the base currency ignores FLAT on every ticker.
pub proof fn lemma_flat_when_flat_holds(ticker: int)
    ensures
        target_status(0, FLAT, ticker) is None,
{
}

/// A slot holding one asset ignores FLAT on any other ticker.
pub proof fn lemma_flat_on_other_ticker_holds(status: int, ticker: int)
    requires
        status != ticker + 1,
    ensures
        target_status(status, FLAT, ticker) is None,
{
}

} // verus!
