use vstd::prelude::*;
use vstd::string::*;

use hmac::{Hmac, Mac, NewMac};
use sha2::Sha256;

use crate::fixed::{dec, push_dec};
use crate::orders::{query_text, MarketRequest};

verus! {

/// HMAC-SHA256 of the bytes of `message` under the bytes of `key`.
pub uninterp spec fn hmac_sha256_of(key: Seq<char>, message: Seq<char>) -> Seq<u8>;

/// Relies on hmac's `Hmac::<Sha256>::new_varkey`, `update` and `finalize`:
/// the 32-byte HMAC-SHA256 tag of the UTF-8 bytes of `message` under the
/// UTF-8 bytes of `key`. `new_varkey` accepts keys of every length.
#[verifier::external_body]
fn hmac_sha256(key: &str, message: &str) -> (r: Vec<u8>)
    ensures
        r@ == hmac_sha256_of(key@, message@),
        r@.len() == 32,
{
    match Hmac::<Sha256>::new_varkey(key.as_bytes()) {
        Ok(mut mac) => {
            mac.update(message.as_bytes());
            mac.finalize().into_bytes().to_vec()
        },
        Err(_) => Vec::new(),
    }
}

pub open spec fn hex_char(d: int) -> char {
    if d < 10 {
        crate::fixed::digit_char(d)
    } else if d == 10 {
        'a'
    } else if d == 11 {
        'b'
    } else if d == 12 {
        'c'
    } else if d == 13 {
        'd'
    } else if d == 14 {
        'e'
    } else {
        'f'
    }
}

/// Two lower-case hex digits per byte.
pub open spec fn hex_text(b: Seq<u8>) -> Seq<char>
    decreases b.len(),
{
    if b.len() == 0 {
        Seq::empty()
    } else {
        hex_text(b.drop_last()) + seq![hex_char(b.last() as int / 16), hex_char(b.last() as int % 16)]
    }
}

fn hex_str(d: u8) -> (r: &'static str)
    requires
        d < 16,
    ensures
        r@ == seq![hex_char(d as int)],
{
    proof {
        reveal_strlit("0");
        reveal_strlit("1");
        reveal_strlit("2");
        reveal_strlit("3");
        reveal_strlit("4");
        reveal_strlit("5");
        reveal_strlit("6");
        reveal_strlit("7");
        reveal_strlit("8");
        reveal_strlit("9");
        reveal_strlit("a");
        reveal_strlit("b");
        reveal_strlit("c");
        reveal_strlit("d");
        reveal_strlit("e");
        reveal_strlit("f");
    }
    if d == 0 {
        "0"
    } else if d == 1 {
        "1"
    } else if d == 2 {
        "2"
    } else if d == 3 {
        "3"
    } else if d == 4 {
        "4"
    } else if d == 5 {
        "5"
    } else if d == 6 {
        "6"
    } else if d == 7 {
        "7"
    } else if d == 8 {
        "8"
    } else if d == 9 {
        "9"
    } else if d == 10 {
        "a"
    } else if d == 11 {
        "b"
    } else if d == 12 {
        "c"
    } else if d == 13 {
        "d"
    } else if d == 14 {
        "e"
    } else {
        "f"
    }
}

/// Lower-case hex rendering of `bytes`, two digits each.
pub fn hex_lower(bytes: &Vec<u8>) -> (r: String)
    ensures
        r@ == hex_text(bytes@),
{
    let mut s = String::new();
    let mut i: usize = 0;
    while i < bytes.len()
        invariant
            i <= bytes@.len(),
            s@ == hex_text(bytes@.subrange(0, i as int)),
        decreases bytes.len() - i,
    {
        let b = bytes[i];
        s.append(hex_str(b / 16));
        s.append(hex_str(b % 16));
        proof {
            let p = bytes@.subrange(0, i as int + 1);
            assert(p.drop_last() =~= bytes@.subrange(0, i as int));
            assert(p.last() == b);
        }
        i = i + 1;
    }
    proof {
        assert(bytes@.subrange(0, bytes@.len() as int) =~= bytes@);
    }
    s
}

/// Hex signature of `message` under `key`, as the exchange expects it.
pub fn sign_hmac256(key: &str, message: &str) -> (r: String)
    ensures
        r@ == hex_text(hmac_sha256_of(key@, message@)),
        r@.len() == 64,
{
    let tag = hmac_sha256(key, message);
    proof {
        lemma_hex_len(tag@);
    }
    hex_lower(&tag)
}

proof fn lemma_hex_len(b: Seq<u8>)
    ensures
        hex_text(b).len() == 2 * b.len(),
    decreases b.len(),
{
    if b.len() > 0 {
        lemma_hex_len(b.drop_last());
    }
}

/// The exchange's REST endpoints that the engine uses.
#[derive(Clone, Copy, Debug, PartialEq, Eq, Structural)]
pub enum ApiCall {
    NewListenKey,
    AccountInfo,
    TestPing,
    TestTime,
    ExchangeInfo,
    HistoricalKlines,
}

#[derive(Clone, Copy, Debug, PartialEq, Eq, Structural)]
pub enum HttpMethod {
    Get,
    Post,
}

pub struct RestRequest {
    pub url: String,
    pub method: HttpMethod,
}

pub open spec fn base_url() -> Seq<char> {
    "https://api.binance.us"@
}

/// Query of the signed account request at `timestamp`.
pub open spec fn account_query(timestamp: u64) -> Seq<char> {
    "timestamp="@ + dec(timestamp as nat) + "&recvWindow=5000"@
}

/// Where and how each call goes. The account request carries the timestamp
/// and its signature; the kline request carries `arguments` as its query.
pub open spec fn request_url(call: ApiCall, timestamp: u64, arguments: Seq<char>, secret_key: Seq<char>) -> Seq<char> {
    match call {
        ApiCall::NewListenKey => base_url() + "/api/v3/userDataStream"@,
        ApiCall::AccountInfo => base_url() + "/api/v3/account?"@ + account_query(timestamp) + "&signature="@
            + hex_text(hmac_sha256_of(secret_key, account_query(timestamp))),
        ApiCall::TestPing => base_url() + "/api/v3/ping?"@,
        ApiCall::TestTime => base_url() + "/api/v3/time?"@,
        ApiCall::ExchangeInfo => base_url() + "/api/v3/exchangeInfo?"@,
        ApiCall::HistoricalKlines => base_url() + "/api/v3/klines?"@ + arguments,
    }
}

pub open spec fn request_method(call: ApiCall) -> HttpMethod {
    match call {
        ApiCall::NewListenKey => HttpMethod::Post,
        _ => HttpMethod::Get,
    }
}

/// Builds the URL and method of a REST call.
pub fn rest_request(call: ApiCall, timestamp: u64, arguments: &str, secret_key: &str) -> (r: RestRequest)
    ensures
        r.url@ == request_url(call, timestamp, arguments@, secret_key@),
        r.method == request_method(call),
{
    let mut url = String::new();
    url.append("https://api.binance.us");
    let method = match call {
        ApiCall::NewListenKey => {
            url.append("/api/v3/userDataStream");
            HttpMethod::Post
        },
        ApiCall::AccountInfo => {
            let mut message = String::new();
            message.append("timestamp=");
            push_dec(&mut message, timestamp);
            message.append("&recvWindow=5000");
            proof {
                assert(message@ =~= account_query(timestamp));
            }
            let signature = sign_hmac256(secret_key, message.as_str());
            url.append("/api/v3/account?");
            url.append(message.as_str());
            url.append("&signature=");
            url.append(signature.as_str());
            HttpMethod::Get
        },
        ApiCall::TestPing => {
            url.append("/api/v3/ping?");
            HttpMethod::Get
        },
        ApiCall::TestTime => {
            url.append("/api/v3/time?");
            HttpMethod::Get
        },
        ApiCall::ExchangeInfo => {
            url.append("/api/v3/exchangeInfo?");
            HttpMethod::Get
        },
        ApiCall::HistoricalKlines => {
            url.append("/api/v3/klines?");
            url.append(arguments);
            HttpMethod::Get
        },
    };
    proof {
        assert(url@ =~= request_url(call, timestamp, arguments@, secret_key@));
    }
    RestRequest { url, method }
}

/// Query for one-minute klines of `symbol` over the `lookback` minutes that
/// end at `end_time` (ms).
pub open spec fn kline_query_text(symbol: Seq<char>, end_time: u64, lookback: u64) -> Seq<char> {
    "symbol="@ + symbol + "&interval=1m&startTime="@ + dec((end_time - lookback * 60000) as nat)
        + "&endTime="@ + dec(end_time as nat)
}

pub fn kline_query(symbol: &str, end_time: u64, lookback: u64) -> (r: String)
    requires
        lookback * 60000 <= end_time,
    ensures
        r@ == kline_query_text(symbol@, end_time, lookback),
{
    let mut s = String::new();
    s.append("symbol=");
    s.append(symbol);
    s.append("&interval=1m&startTime=");
    push_dec(&mut s, end_time - lookback * 60000);
    s.append("&endTime=");
    push_dec(&mut s, end_time);
    proof {
        assert(s@ =~= kline_query_text(symbol@, end_time, lookback));
    }
    s
}

/// URL of a signed market order: the order's query string, then its
/// signature under `secret_key`.
pub open spec fn order_url_text(request: MarketRequest, secret_key: Seq<char>) -> Seq<char> {
    "https://api.binance.us/api/v3/order?"@ + query_text(request) + "&signature="@ + hex_text(
        hmac_sha256_of(secret_key, query_text(request)),
    )
}

pub fn order_url(request: MarketRequest, secret_key: &str) -> (r: String)
    requires
        request.wf(),
    ensures
        r@ == order_url_text(request, secret_key@),
{
    let message = request.to_string();
    let signature = sign_hmac256(secret_key, message.as_str());
    let mut url = String::new();
    url.append("https://api.binance.us/api/v3/order?");
    url.append(message.as_str());
    url.append("&signature=");
    url.append(signature.as_str());
    proof {
        assert(url@ =~= order_url_text(request, secret_key@));
    }
    url
}

} // verus!
