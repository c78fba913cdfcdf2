use vstd::prelude::*;
use vstd::string::*;

use std::time::UNIX_EPOCH;

verus! {

/// Kinds of market-data stream the gateway subscribes to.
#[derive(Clone, Copy, Debug, PartialEq, Eq, Structural)]
pub enum StreamType {
    Trade,
    Depth,
    KLine,
    UserData,
}

/// A failed exchange interaction.
#[derive(Clone, Copy, Debug, PartialEq, Eq, Structural)]
pub struct APIError;

impl APIError {
    /// Text shown to the operator.
    pub fn message(&self) -> (r: String)
        ensures
            r@ == "Something happened while interacting with an external API."@,
    {
        String::from_str("Something happened while interacting with an external API.")
    }
}

/// Whether two strings hold the same characters.
pub fn str_eq(a: &str, b: &str) -> (r: bool)
    ensures
        r == (a@ == b@),
{
    let n = a.unicode_len();
    if n != b.unicode_len() {
        return false;
    }
    let mut i: usize = 0;
    while i < n
        invariant
            n == a@.len(),
            n == b@.len(),
            i <= n,
            forall|j: int| 0 <= j < i ==> a@[j] == b@[j],
        decreases n - i,
    {
        if a.get_char(i) != b.get_char(i) {
            return false;
        }
        i = i + 1;
    }
    proof {
        assert(a@ =~= b@);
    }
    true
}

/// Whether a stream message is a JSON object, the only kind that carries
/// data; others (pings, plain text) are skipped.
pub fn is_payload(message: &str) -> (r: bool)
    ensures
        r == (message@.len() > 0 && message@[0] == '{'),
{
    message.unicode_len() > 0 && message.get_char(0) == '{'
}

/// Free amount of the last entry for `symbol` among the first `n` balance
/// entries, or -1 when none of them is for it.
pub open spec fn balance_of(symbol: Seq<char>, assets: Seq<String>, free: Seq<i64>, n: int) -> i64
    decreases n,
{
    if n <= 0 {
        -1i64
    } else if assets[n - 1]@ == symbol {
        free[n - 1]
    } else {
        balance_of(symbol, assets, free, n - 1)
    }
}

/// The free balance of each symbol of interest, in the order given, from an
/// account's balance list (asset names with free amounts); -1 for a symbol
/// that the list does not hold.
pub fn balances_for(symbols: &Vec<String>, assets: &Vec<String>, free: &Vec<i64>) -> (r: Vec<i64>)
    requires
        assets.len() == free.len(),
    ensures
        r@.len() == symbols@.len(),
        forall|k: int| 0 <= k < symbols@.len() ==> #[trigger] r@[k] == balance_of(
            symbols@[k]@,
            assets@,
            free@,
            assets@.len() as int,
        ),
{
    let mut out: Vec<i64> = Vec::new();
    let mut k: usize = 0;
    while k < symbols.len()
        invariant
            assets.len() == free.len(),
            k <= symbols.len(),
            out@.len() == k,
            forall|m: int| 0 <= m < k ==> #[trigger] out@[m] == balance_of(
                symbols@[m]@,
                assets@,
                free@,
                assets@.len() as int,
            ),
        decreases symbols.len() - k,
    {
        let mut found: i64 = -1;
        let mut j: usize = 0;
        while j < assets.len()
            invariant
                assets.len() == free.len(),
                k < symbols.len(),
                j <= assets.len(),
                found == balance_of(symbols@[k as int]@, assets@, free@, j as int),
            decreases assets.len() - j,
        {
            if str_eq(assets[j].as_str(), symbols[k].as_str()) {
                found = free[j];
            }
            j = j + 1;
        }
        out.push(found);
        k = k + 1;
    }
    out
}

/// Relies on std's `SystemTime::elapsed`, taken on `UNIX_EPOCH`: the time
/// since the Unix epoch in milliseconds, or `None` when the system clock
/// reads earlier. Nothing is promised of the reading itself.
#[verifier::external_body]
fn millis_since_epoch() -> (r: Option<u128>) {
    match UNIX_EPOCH.elapsed() {
        Ok(d) => Some(d.as_millis()),
        Err(_) => None,
    }
}

/// A clock reading in milliseconds as a `u64`: 0 for a clock before the
/// epoch, `u64::MAX` past the range of `u64`.
pub fn millis_to_u64(reading: Option<u128>) -> (r: u64)
    ensures
        reading matches Some(ms) ==> r == if ms > u64::MAX { u64::MAX as int } else { ms as int },
        reading is None ==> r == 0,
{
    match reading {
        Some(ms) => {
            if ms > u64::MAX as u128 {
                u64::MAX
            } else {
                ms as u64
            }
        },
        None => 0,
    }
}

/// Milliseconds since the Unix epoch by the system clock, as
/// `millis_to_u64` turns the reading. Nothing more holds of every reading.
pub fn epoch_ms() -> u64 {
    millis_to_u64(millis_since_epoch())
}

} // verus!
