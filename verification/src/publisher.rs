//! The publish loop, one tick at a time.
//!
//! A tick walks the configured tickers in order and produces one publish
//! request per ticker: a topic under the fixed prefix and a freshly
//! generated, rendered snapshot. Delivery itself — the broker connection,
//! the sleep between ticks — is the caller's: this module decides what is
//! sent where, and that any failed delivery stops the loop.

use crate::chain::{chain_shape, generate_options_data, sample_uniform};
use crate::fixed::SCALE;
use crate::json::{payload_chars, render_payload, OptionsMarketData};
use vstd::prelude::*;
use vstd::string::StringExecFns;

verus! {

/// Lower bound of a snapshot's spot price: 900.0.
pub const SPOT_LO: u64 = 9000000;

/// Upper bound (exclusive) of a snapshot's spot price: 1000.0.
pub const SPOT_HI: u64 = 10000000;

/// Upper bound (exclusive) of a snapshot's years to expiry: 0.45.
pub const EXPIRY_HI: u64 = 4500;

/// The fixed reference price the chain is laddered around: 1000.0.
/// Deliberately decoupled from the snapshot's own randomized `spot`,
/// as consumers may depend on the two being independent.
pub const CHAIN_REFERENCE_SPOT: u64 = 10000000;

/// The requested option count keeps every ladder strike at or above
/// zero when laddered around the fixed reference price.
pub open spec fn count_supported(count: u16) -> bool {
    (count as int / 2 - 1) * SCALE <= CHAIN_REFERENCE_SPOT
}

/// Runtime test of `count_supported`, for callers that take the count
/// from configuration.
pub fn count_is_supported(count: u16) -> (b: bool)
    ensures
        b == count_supported(count),
{
    let half: u64 = count as u64 / 2;
    half <= 1 || (half - 1) * SCALE <= CHAIN_REFERENCE_SPOT
}

/// The snapshot was built for `ticker` with `count` requested options:
/// its spot and expiry lie in the documented sampling ranges and its
/// chain is the ladder around the fixed reference price.
pub open spec fn snapshot_ok(m: OptionsMarketData, ticker: Seq<char>, count: u16) -> bool {
    &&& m.ticker@ == ticker
    &&& SPOT_LO <= m.spot < SPOT_HI
    &&& m.option_expiry < EXPIRY_HI
    &&& chain_shape(CHAIN_REFERENCE_SPOT, count, m.option_data@)
}

/// Build one snapshot for `ticker`: a fresh spot in `[900.0, 1000.0)`,
/// a fresh expiry in `[0.00, 0.45)`, and a fresh chain.
pub fn build_snapshot(ticker: &String, count: u16) -> (m: OptionsMarketData)
    requires
        count_supported(count),
    ensures
        snapshot_ok(m, ticker@, count),
{
    OptionsMarketData {
        ticker: ticker.clone(),
        spot: sample_uniform(SPOT_LO, SPOT_HI),
        option_expiry: sample_uniform(0, EXPIRY_HI),
        option_data: generate_options_data(CHAIN_REFERENCE_SPOT, count),
    }
}

/// The topic a ticker's snapshots are published on: the fixed prefix,
/// then the ticker verbatim.
pub open spec fn topic_chars(ticker: Seq<char>) -> Seq<char> {
    "OPTIONS/MARKETDATA/"@ + ticker
}

/// Build the topic string for `ticker`.
pub fn topic_for(ticker: &str) -> (t: String)
    ensures
        t@ == topic_chars(ticker@),
{
    let mut t = String::from_str("OPTIONS/MARKETDATA/");
    t.append(ticker);
    t
}

/// How firmly the transport must deliver a message.
pub enum DeliveryGuarantee {
    /// Fire and forget.
    AtMostOnce,
    /// Acknowledged; duplicates are possible.
    AtLeastOnce,
    /// Acknowledged and deduplicated.
    ExactlyOnce,
}

/// One publish to hand to the transport.
pub struct PublishRequest {
    /// Destination topic.
    pub topic: String,
    /// JSON payload.
    pub payload: String,
    /// Required delivery guarantee: always at-least-once here.
    pub qos: DeliveryGuarantee,
    /// Whether the broker should retain the message: never here.
    pub retain: bool,
}

/// The request carries the ticker's topic with at-least-once delivery
/// and no retention, and its payload is the rendering of some snapshot
/// built for that ticker.
pub open spec fn request_ok(r: PublishRequest, ticker: Seq<char>, count: u16) -> bool {
    &&& r.topic@ == topic_chars(ticker)
    &&& r.qos == DeliveryGuarantee::AtLeastOnce
    &&& r.retain == false
    &&& exists|m: OptionsMarketData|
        #[trigger] snapshot_ok(m, ticker, count) && r.payload@ == payload_chars(m)
}

/// The generator side of the publish loop: the configured symbols and
/// the option count requested per chain.
pub struct Publisher {
    /// Symbols, in the order they are published on every tick.
    pub tickers: Vec<String>,
    /// Requested option count per chain.
    pub number_of_options: u16,
}

impl Publisher {
    /// A publisher for already-validated configuration.
    pub fn new(tickers: Vec<String>, number_of_options: u16) -> (p: Publisher)
        requires
            count_supported(number_of_options),
        ensures
            p.tickers == tickers,
            p.number_of_options == number_of_options,
    {
        Publisher { tickers, number_of_options }
    }

    /// One tick: exactly one request per configured ticker, in the
    /// configured order, each with that ticker's topic and a freshly
    /// generated snapshot payload.
    pub fn tick(&self) -> (reqs: Vec<PublishRequest>)
        requires
            count_supported(self.number_of_options),
        ensures
            reqs@.len() == self.tickers@.len(),
            forall|i: int|
                0 <= i < reqs@.len() ==> #[trigger] request_ok(
                    reqs@[i],
                    self.tickers@[i]@,
                    self.number_of_options,
                ),
    {
        let mut reqs: Vec<PublishRequest> = Vec::new();
        let n = self.tickers.len();
        let mut i: usize = 0;
        while i < n
            invariant
                i <= n,
                n == self.tickers@.len(),
                count_supported(self.number_of_options),
                reqs@.len() == i,
                forall|j: int|
                    0 <= j < i as int ==> #[trigger] request_ok(
                        reqs@[j],
                        self.tickers@[j]@,
                        self.number_of_options,
                    ),
            decreases n - i,
        {
            let m = build_snapshot(&self.tickers[i], self.number_of_options);
            let payload = render_payload(&m);
            let topic = topic_for(self.tickers[i].as_str());
            reqs.push(
                PublishRequest {
                    topic,
                    payload,
                    qos: DeliveryGuarantee::AtLeastOnce,
                    retain: false,
                },
            );
            proof {
                assert(snapshot_ok(m, self.tickers@[i as int]@, self.number_of_options));
                assert(request_ok(
                    reqs@[i as int],
                    self.tickers@[i as int]@,
                    self.number_of_options,
                ));
            }
            i = i + 1;
        }
        reqs
    }
}

/// The control state of the publish loop: it is publishing, or the
/// process is to stop.
pub enum LoopState {
    /// Keep going: publish the next request, then the next tick.
    Publishing,
    /// A delivery failed: stop at once, before any further request.
    Stopped,
}

/// The loop's whole reaction to a delivery report: keep publishing after
/// an acknowledged delivery, stop the process on any failure — no retry,
/// no skipping ahead to the next ticker or tick.
pub fn after_publish(delivered: bool) -> (s: LoopState)
    ensures
        s == LoopState::Publishing <==> delivered,
{
    if delivered {
        LoopState::Publishing
    } else {
        LoopState::Stopped
    }
}

} // verus!
