//! The JSON wire format of a snapshot.
//!
//! Downstream consumers parse this exact shape, so the payload is built
//! character by character in verified code and its full contents are
//! pinned down by `payload_chars`.

use crate::chain::OptionData;
use crate::fixed::{dec_digits, fixed_chars, push_decimal, push_fixed};
use vstd::prelude::*;
use vstd::string::StringExecFns;

verus! {

/// One message payload for one ticker at one tick.
pub struct OptionsMarketData {
    /// The symbol, inserted into the payload verbatim.
    pub ticker: String,
    /// Spot price, fixed-point.
    pub spot: u64,
    /// Years to expiry, fixed-point.
    pub option_expiry: u64,
    /// The generated chain.
    pub option_data: Vec<OptionData>,
}

/// The JSON object for one record.
pub open spec fn record_chars(o: OptionData) -> Seq<char> {
    "{\"direction\":"@ + dec_digits(o.direction as nat) + ",\"strike\":"@ + fixed_chars(o.strike)
        + ",\"risk_free_rate\":"@ + fixed_chars(o.risk_free_rate) + ",\"volatility\":"@
        + fixed_chars(o.volatility) + ",\"dividend_yield\":"@ + fixed_chars(o.dividend_yield)
        + "}"@
}

/// The comma-separated JSON objects for a sequence of records.
pub open spec fn records_chars(rs: Seq<OptionData>) -> Seq<char>
    decreases rs.len(),
{
    if rs.len() == 0 {
        Seq::empty()
    } else if rs.len() == 1 {
        record_chars(rs[0])
    } else {
        records_chars(rs.drop_last()) + seq![','] + record_chars(rs.last())
    }
}

/// Everything of the payload before the records.
pub open spec fn payload_head_chars(m: OptionsMarketData) -> Seq<char> {
    "{\"ticker\":\""@ + m.ticker@ + "\",\"spot\":"@ + fixed_chars(m.spot) + ",\"option_expiry\":"@
        + fixed_chars(m.option_expiry) + ",\"option_data\":["@
}

/// The complete JSON payload for a snapshot.
pub open spec fn payload_chars(m: OptionsMarketData) -> Seq<char> {
    payload_head_chars(m) + records_chars(m.option_data@) + "]}"@
}

/// Append the JSON object for one record to `out`.
fn push_record(out: &mut String, o: &OptionData)
    ensures
        final(out)@ == old(out)@ + record_chars(*o),
{
    out.append("{\"direction\":");
    push_decimal(out, o.direction as u64);
    out.append(",\"strike\":");
    push_fixed(out, o.strike);
    out.append(",\"risk_free_rate\":");
    push_fixed(out, o.risk_free_rate);
    out.append(",\"volatility\":");
    push_fixed(out, o.volatility);
    out.append(",\"dividend_yield\":");
    push_fixed(out, o.dividend_yield);
    out.append("}");
    assert(out@ =~= old(out)@ + record_chars(*o));
}

/// Render the complete JSON payload for snapshot `m`.
pub fn render_payload(m: &OptionsMarketData) -> (s: String)
    ensures
        s@ == payload_chars(*m),
{
    let mut out = String::new();
    out.append("{\"ticker\":\"");
    out.append(m.ticker.as_str());
    out.append("\",\"spot\":");
    push_fixed(&mut out, m.spot);
    out.append(",\"option_expiry\":");
    push_fixed(&mut out, m.option_expiry);
    out.append(",\"option_data\":[");
    assert(out@ =~= payload_head_chars(*m));
    let n = m.option_data.len();
    let mut i: usize = 0;
    while i < n
        invariant
            i <= n,
            n == m.option_data.len(),
            out@ == payload_head_chars(*m) + records_chars(m.option_data@.take(i as int)),
        decreases n - i,
    {
        if i > 0 {
            out.append(",");
        }
        push_record(&mut out, &m.option_data[i]);
        proof {
            reveal_strlit(",");
            let t1 = m.option_data@.take(i as int + 1);
            assert(t1.drop_last() =~= m.option_data@.take(i as int));
            assert(t1.last() == m.option_data@[i as int]);
            if i == 0 {
                assert(records_chars(t1) == record_chars(m.option_data@[0]));
                assert(out@ =~= payload_head_chars(*m) + records_chars(t1));
            } else {
                assert(","@ =~= seq![',']);
                assert(records_chars(t1) == records_chars(m.option_data@.take(i as int))
                    + seq![','] + record_chars(m.option_data@[i as int]));
                assert(out@ =~= payload_head_chars(*m) + records_chars(t1));
            }
        }
        i = i + 1;
    }
    out.append("]}");
    proof {
        assert(m.option_data@.take(n as int) =~= m.option_data@);
        assert(out@ =~= payload_chars(*m));
    }
    out
}

} // verus!
