use vstd::prelude::*;
use vstd::string::*;

use crate::fixed::{dec, fixed_text, push_dec, push_fixed};

verus! {

/// Marks the amount field of a market order that is not used.
pub const SENTINEL: i64 = -1;

/// A market order: exactly one of `quantity` (base asset, for a sale) and
/// `quote_order_qty` (quote currency to spend, for a purchase) holds an
/// amount; the other holds `SENTINEL`. Amounts are fixed-point.
#[derive(Clone)]
pub struct MarketRequest {
    pub symbol: String,
    pub side: String,
    pub timestamp: u64,
    pub quantity: i64,
    pub quote_order_qty: i64,
}

/// Exactly one of the two amounts is populated, and it is not negative.
pub open spec fn exactly_one_amount(quantity: i64, quote_order_qty: i64) -> bool {
    ||| quantity == SENTINEL && quote_order_qty >= 0
    ||| quote_order_qty == SENTINEL && quantity >= 0
}

impl MarketRequest {
    pub open spec fn wf(&self) -> bool {
        exactly_one_amount(self.quantity, self.quote_order_qty)
    }

    /// A purchase that spends `quote_order_qty` of the quote currency.
    pub fn buy(symbol: &str, timestamp: u64, quote_order_qty: i64) -> (r: Self)
        requires
            quote_order_qty >= 0,
        ensures
            r.wf(),
            r.symbol@ == symbol@,
            r.side@ == "BUY"@,
            r.timestamp == timestamp,
            r.quantity == SENTINEL,
            r.quote_order_qty == quote_order_qty,
    {
        MarketRequest {
            symbol: String::from_str(symbol),
            side: String::from_str("BUY"),
            timestamp,
            quantity: SENTINEL,
            quote_order_qty,
        }
    }

    /// A sale of `quantity` of the base asset.
    pub fn sell(symbol: &str, timestamp: u64, quantity: i64) -> (r: Self)
        requires
            quantity >= 0,
        ensures
            r.wf(),
            r.symbol@ == symbol@,
            r.side@ == "SELL"@,
            r.timestamp == timestamp,
            r.quantity == quantity,
            r.quote_order_qty == SENTINEL,
    {
        MarketRequest {
            symbol: String::from_str(symbol),
            side: String::from_str("SELL"),
            timestamp,
            quantity,
            quote_order_qty: SENTINEL,
        }
    }
}

/// The order as the exchange's query string: symbol, side, timestamp, the
/// populated amount with eight decimals, and the order type.
pub open spec fn query_text(r: MarketRequest) -> Seq<char> {
    let amount = if r.quantity == SENTINEL {
        "&quoteOrderQty="@ + fixed_text(r.quote_order_qty as nat)
    } else {
        "&quantity="@ + fixed_text(r.quantity as nat)
    };
    "symbol="@ + r.symbol@ + "&side="@ + r.side@ + "&timestamp="@ + dec(r.timestamp as nat) + amount
        + "&type=MARKET"@
}

impl MarketRequest {
    /// The query string of the order; see `query_text`.
    pub fn to_string(self) -> (r: String)
        requires
            self.wf(),
        ensures
            r@ == query_text(self),
    {
        let mut s = String::new();
        s.append("symbol=");
        s.append(self.symbol.as_str());
        s.append("&side=");
        s.append(self.side.as_str());
        s.append("&timestamp=");
        push_dec(&mut s, self.timestamp);
        if self.quantity == SENTINEL {
            s.append("&quoteOrderQty=");
            push_fixed(&mut s, self.quote_order_qty);
        } else {
            s.append("&quantity=");
            push_fixed(&mut s, self.quantity);
        }
        s.append("&type=MARKET");
        proof {
            assert(s@ =~= query_text(self));
        }
        s
    }
}

/// In a well-formed request, and so in every request that `buy` or `sell`
/// builds, exactly one of the two amounts differs from the sentinel.
pub proof fn lemma_exactly_one_populated(r: MarketRequest)
    requires
        r.wf(),
    ensures
        (r.quantity == SENTINEL) != (r.quote_order_qty == SENTINEL),
{
}

} // verus!
