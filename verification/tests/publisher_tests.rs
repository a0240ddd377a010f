use options_sim::publisher::{
    after_publish, build_snapshot, count_is_supported, topic_for, DeliveryGuarantee, LoopState,
    Publisher,
};

#[test]
fn one_tick_publishes_each_ticker_in_order() {
    let publisher = Publisher::new(vec![String::from("AAPL"), String::from("TSLA")], 4);
    let reqs = publisher.tick();
    assert_eq!(reqs.len(), 2);
    assert_eq!(reqs[0].topic, "OPTIONS/MARKETDATA/AAPL");
    assert_eq!(reqs[1].topic, "OPTIONS/MARKETDATA/TSLA");
    for req in reqs.iter() {
        assert!(matches!(req.qos, DeliveryGuarantee::AtLeastOnce));
        assert!(!req.retain);
        let value: serde_json::Value = serde_json::from_str(&req.payload).unwrap();
        let records = value["option_data"].as_array().unwrap();
        // count = 4, so 2 + 4 * (4 / 2 - 1) records.
        assert_eq!(records.len(), 6);
    }
    let aapl: serde_json::Value = serde_json::from_str(&reqs[0].payload).unwrap();
    assert_eq!(aapl["ticker"].as_str().unwrap(), "AAPL");
    let tsla: serde_json::Value = serde_json::from_str(&reqs[1].payload).unwrap();
    assert_eq!(tsla["ticker"].as_str().unwrap(), "TSLA");
}

#[test]
fn snapshot_spot_and_expiry_are_in_range() {
    for _ in 0..32 {
        let m = build_snapshot(&String::from("GOOG"), 4);
        assert!(9_000_000 <= m.spot && m.spot < 10_000_000);
        assert!(m.option_expiry < 4_500);
        assert_eq!(m.ticker, "GOOG");
    }
}

#[test]
fn chain_is_laddered_around_the_fixed_reference_price() {
    let m = build_snapshot(&String::from("NFLX"), 6);
    // Two at-the-money records at 1000.0, then one group one unit out.
    assert_eq!(m.option_data.len(), 2 + 4 * (6 / 2 - 1));
    assert_eq!(m.option_data[0].strike, 10_000_000);
    assert_eq!(m.option_data[1].strike, 10_000_000);
    assert_eq!(m.option_data[2].strike, 10_010_000);
    assert_eq!(m.option_data[3].strike, 9_990_000);
}

#[test]
fn topic_is_the_fixed_prefix_then_the_ticker() {
    assert_eq!(topic_for("AMD"), "OPTIONS/MARKETDATA/AMD");
    assert_eq!(topic_for(""), "OPTIONS/MARKETDATA/");
}

#[test]
fn a_failed_delivery_stops_the_loop() {
    assert!(matches!(after_publish(false), LoopState::Stopped));
    assert!(matches!(after_publish(true), LoopState::Publishing));
}

#[test]
fn supported_counts() {
    assert!(count_is_supported(0));
    assert!(count_is_supported(4));
    assert!(count_is_supported(100));
    assert!(count_is_supported(2002));
    assert!(!count_is_supported(u16::MAX));
}
