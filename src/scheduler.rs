use vstd::prelude::*;

use crate::exchange::str_eq;

verus! {

/// Administrative verbs that the operator sends to the scheduler.
#[derive(Clone, Copy, Debug, PartialEq, Eq, Structural)]
pub enum Command {
    Start,
    Stop,
    Autostart,
    FetchPredata,
    FetchVars,
    StoreVars,
    DisplayVars,
    SellToUsdt,
    OrderTest,
    TestPing,
    ExchangeInfo,
    TestTime,
    NewListenKey,
    DisplayAccountInfo,
}

pub open spec fn command_of(s: Seq<char>) -> Option<Command> {
    if s == "start"@ {
        Some(Command::Start)
    } else if s == "stop"@ {
        Some(Command::Stop)
    } else if s == "autostart"@ {
        Some(Command::Autostart)
    } else if s == "fetchpredata"@ {
        Some(Command::FetchPredata)
    } else if s == "fetchvars"@ {
        Some(Command::FetchVars)
    } else if s == "storevars"@ {
        Some(Command::StoreVars)
    } else if s == "displayvars"@ {
        Some(Command::DisplayVars)
    } else if s == "selltousdt"@ {
        Some(Command::SellToUsdt)
    } else if s == "ordertest"@ {
        Some(Command::OrderTest)
    } else if s == "testping"@ {
        Some(Command::TestPing)
    } else if s == "exchangeinfo"@ {
        Some(Command::ExchangeInfo)
    } else if s == "testtime"@ {
        Some(Command::TestTime)
    } else if s == "newlistenkey"@ {
        Some(Command::NewListenKey)
    } else if s == "displayaccountinfo"@ {
        Some(Command::DisplayAccountInfo)
    } else {
        None
    }
}

impl Command {
    /// The verb that `s` names, if any.
    pub fn parse(s: &str) -> (r: Option<Command>)
        ensures
            r == command_of(s@),
    {
        if str_eq(s, "start") {
            Some(Command::Start)
        } else if str_eq(s, "stop") {
            Some(Command::Stop)
        } else if str_eq(s, "autostart") {
            Some(Command::Autostart)
        } else if str_eq(s, "fetchpredata") {
            Some(Command::FetchPredata)
        } else if str_eq(s, "fetchvars") {
            Some(Command::FetchVars)
        } else if str_eq(s, "storevars") {
            Some(Command::StoreVars)
        } else if str_eq(s, "displayvars") {
            Some(Command::DisplayVars)
        } else if str_eq(s, "selltousdt") {
            Some(Command::SellToUsdt)
        } else if str_eq(s, "ordertest") {
            Some(Command::OrderTest)
        } else if str_eq(s, "testping") {
            Some(Command::TestPing)
        } else if str_eq(s, "exchangeinfo") {
            Some(Command::ExchangeInfo)
        } else if str_eq(s, "testtime") {
            Some(Command::TestTime)
        } else if str_eq(s, "newlistenkey") {
            Some(Command::NewListenKey)
        } else if str_eq(s, "displayaccountinfo") {
            Some(Command::DisplayAccountInfo)
        } else {
            None
        }
    }
}

/// Counts closed bars towards a balance snapshot: one snapshot per full cycle
/// over the `num_tickers` tickers. Returns the new count and whether a
/// snapshot is due; the caller resets the count to 0 once one is taken.
pub fn minute_tick(counter: usize, num_tickers: usize) -> (r: (usize, bool))
    requires
        counter < usize::MAX,
    ensures
        r.0 == counter + 1,
        r.1 == (counter + 1 >= num_tickers),
{
    let c = counter + 1;
    (c, c >= num_tickers)
}

/// Total length of the first `k` messages.
pub open spec fn prefix_sum(c: Seq<usize>, k: int) -> int
    decreases k,
{
    if k <= 0 {
        0
    } else {
        prefix_sum(c, k - 1) + c[k - 1]
    }
}

/// How many of the queued messages, with the given lengths, go into the
/// next post: as many as fit in order with their total length under
/// `budget`, and at least one, so that a message longer than the budget
/// still goes out on its own.
pub fn post_batch_len(char_counts: &Vec<usize>, budget: usize) -> (r: usize)
    ensures
        char_counts@.len() == 0 ==> r == 0,
        char_counts@.len() > 0 ==> 1 <= r <= char_counts@.len(),
        r > 1 ==> prefix_sum(char_counts@, r as int) < budget,
        1 <= r < char_counts@.len() ==> prefix_sum(char_counts@, r as int + 1) >= budget,
{
    let n = char_counts.len();
    if n == 0 {
        return 0;
    }
    let mut total: u128 = char_counts[0] as u128;
    let mut k: usize = 1;
    proof {
        assert(prefix_sum(char_counts@, 0) == 0);
        assert(prefix_sum(char_counts@, 1) == char_counts@[0]);
    }
    while k < n && total + (char_counts[k] as u128) < budget as u128
        invariant
            n == char_counts@.len(),
            1 <= k <= n,
            total == prefix_sum(char_counts@, k as int),
            total <= k * usize::MAX,
            k > 1 ==> total < budget,
        decreases n - k,
    {
        proof {
            assert((k + 1) * usize::MAX <= u128::MAX) by (nonlinear_arith)
                requires k < usize::MAX;
        }
        total = total + char_counts[k] as u128;
        k = k + 1;
    }
    proof {
        if k < n && k > 1 {
            assert(prefix_sum(char_counts@, k as int + 1) == total + char_counts@[k as int]);
        }
        if k == 1 && 1 < n {
            assert(prefix_sum(char_counts@, 2) == total + char_counts@[1]);
        }
    }
    k
}

} // verus!
