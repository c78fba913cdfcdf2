//! Verified core of a single-operator spot-trading engine: streaming
//! indicators, bounded candle histories, the per-slot position state machine
//! and the construction of signed market orders.
//!
//! Prices, balances and quantities are fixed-point integers with eight
//! decimal places (see `fixed`).

pub mod adx;
pub mod api;
pub mod candles;
pub mod exchange;
pub mod fixed;
pub mod orders;
pub mod portfolio;
pub mod scheduler;
pub mod strategy;
pub mod vars;
pub mod window;

pub use api::{hex_lower, kline_query, order_url, rest_request, sign_hmac256, ApiCall, HttpMethod, RestRequest};
pub use adx::{directional_index, directional_move, AverageDirectionalMovementIndex, DirectionalMove};
pub use candles::{CandleHistory, KLineMinute};
pub use exchange::{balances_for, epoch_ms, millis_to_u64, is_payload, str_eq, APIError, StreamType};
pub use fixed::{parse_fixed, ONE, PRICE_LIMIT};
pub use orders::{MarketRequest, SENTINEL};
pub use portfolio::{quantize_down, Decision, ExchangeFilters, Portfolio, SetupError, FLAT, LONG};
pub use scheduler::{minute_tick, post_batch_len, Command};
pub use strategy::{crossover_signal, run_all, signal_for, Readings, StrategyKind, ADX_THRESHOLD};
pub use vars::{format_vars, parse_vars};
pub use window::{MaxmimumInRange, MinimumInRange};
