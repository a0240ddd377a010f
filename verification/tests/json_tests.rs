use options_sim::chain::OptionData;
use options_sim::json::{render_payload, OptionsMarketData};

fn one_record_snapshot() -> OptionsMarketData {
    OptionsMarketData {
        ticker: String::from("AAPL"),
        spot: 9_542_100,
        option_expiry: 3_100,
        option_data: vec![OptionData {
            direction: 1,
            strike: 9_542_100,
            risk_free_rate: 450,
            volatility: 700,
            dividend_yield: 5_000,
        }],
    }
}

#[test]
fn payload_is_the_exact_expected_text() {
    let payload = render_payload(&one_record_snapshot());
    assert_eq!(
        payload,
        "{\"ticker\":\"AAPL\",\"spot\":954.2100,\"option_expiry\":0.3100,\"option_data\":[{\"direction\":1,\"strike\":954.2100,\"risk_free_rate\":0.0450,\"volatility\":0.0700,\"dividend_yield\":0.5000}]}"
    );
}

#[test]
fn empty_chain_renders_an_empty_array() {
    let m = OptionsMarketData {
        ticker: String::from("TSLA"),
        spot: 9_000_000,
        option_expiry: 0,
        option_data: vec![],
    };
    let payload = render_payload(&m);
    assert_eq!(
        payload,
        "{\"ticker\":\"TSLA\",\"spot\":900.0000,\"option_expiry\":0.0000,\"option_data\":[]}"
    );
}

#[test]
fn decoding_the_payload_gives_back_the_snapshot_fields() {
    let m = one_record_snapshot();
    let payload = render_payload(&m);
    let value: serde_json::Value = serde_json::from_str(&payload).unwrap();
    assert_eq!(value["ticker"].as_str().unwrap(), "AAPL");
    assert_eq!(value["spot"].as_f64().unwrap(), 954.21);
    assert_eq!(value["option_expiry"].as_f64().unwrap(), 0.31);
    let records = value["option_data"].as_array().unwrap();
    assert_eq!(records.len(), 1);
    assert_eq!(records[0]["direction"].as_i64().unwrap(), 1);
    assert_eq!(records[0]["strike"].as_f64().unwrap(), 954.21);
    assert_eq!(records[0]["risk_free_rate"].as_f64().unwrap(), 0.045);
    assert_eq!(records[0]["volatility"].as_f64().unwrap(), 0.07);
    assert_eq!(records[0]["dividend_yield"].as_f64().unwrap(), 0.5);
}

#[test]
fn decoding_a_generated_payload_round_trips_every_field() {
    let chain = options_sim::chain::generate_options_data(10_000_000, 8);
    let m = OptionsMarketData {
        ticker: String::from("MSFT"),
        spot: 9_123_400,
        option_expiry: 4_499,
        option_data: chain,
    };
    let payload = render_payload(&m);
    let value: serde_json::Value = serde_json::from_str(&payload).unwrap();
    assert_eq!(value["ticker"].as_str().unwrap(), "MSFT");
    assert_eq!(value["spot"].as_f64().unwrap(), 912.34);
    assert_eq!(value["option_expiry"].as_f64().unwrap(), 0.4499);
    let records = value["option_data"].as_array().unwrap();
    assert_eq!(records.len(), m.option_data.len());
    for (rec, o) in records.iter().zip(m.option_data.iter()) {
        assert_eq!(rec["direction"].as_i64().unwrap(), o.direction as i64);
        assert_eq!(rec["strike"].as_f64().unwrap(), o.strike as f64 / 10_000.0);
        assert_eq!(
            rec["risk_free_rate"].as_f64().unwrap(),
            o.risk_free_rate as f64 / 10_000.0
        );
        assert_eq!(rec["volatility"].as_f64().unwrap(), o.volatility as f64 / 10_000.0);
        assert_eq!(
            rec["dividend_yield"].as_f64().unwrap(),
            o.dividend_yield as f64 / 10_000.0
        );
    }
}
