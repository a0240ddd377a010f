use options_sim::chain::{generate_option, generate_options_data, CALL, PUT};
use options_sim::fixed::SCALE;

fn assert_record_ranges(o: &options_sim::chain::OptionData) {
    assert!(o.direction == CALL || o.direction == PUT);
    assert!(100 <= o.risk_free_rate && o.risk_free_rate < 1000);
    assert!(100 <= o.volatility && o.volatility < 1000);
    assert!(1000 <= o.dividend_yield && o.dividend_yield < 10000);
}

#[test]
fn single_option_has_direction_strike_and_ranges() {
    let o = generate_option(CALL, 9_542_100);
    assert_eq!(o.direction, CALL);
    assert_eq!(o.strike, 9_542_100);
    assert_record_ranges(&o);

    let o = generate_option(PUT, 10_000);
    assert_eq!(o.direction, PUT);
    assert_eq!(o.strike, 10_000);
    assert_record_ranges(&o);
}

#[test]
fn small_counts_give_exactly_the_two_at_the_money_records() {
    for count in [0u16, 1, 2, 3] {
        let spot: u64 = 10_000_000;
        let v = generate_options_data(spot, count);
        assert_eq!(v.len(), 2);
        assert_eq!(v[0].direction, CALL);
        assert_eq!(v[0].strike, spot);
        assert_eq!(v[1].direction, PUT);
        assert_eq!(v[1].strike, spot);
    }
}

#[test]
fn ladder_length_follows_the_formula() {
    let spot: u64 = 10_000_000;
    for count in [4u16, 5, 6, 10, 100] {
        let v = generate_options_data(spot, count);
        let expected = 2 + 4 * (count as usize / 2 - 1);
        assert_eq!(v.len(), expected);
    }
}

#[test]
fn ladder_records_present_exactly_once_per_offset() {
    let spot: u64 = 10_000_000;
    let count: u16 = 10;
    let v = generate_options_data(spot, count);
    assert_eq!(v.len(), 2 + 4 * (count as usize / 2 - 1));
    for x in 1..=(count as u64 / 2 - 1) {
        let above = spot + x * SCALE;
        let below = spot - x * SCALE;
        for (direction, strike) in [(CALL, above), (CALL, below), (PUT, above), (PUT, below)] {
            let hits = v
                .iter()
                .filter(|o| o.direction == direction && o.strike == strike)
                .count();
            assert_eq!(hits, 1, "offset {} direction {} strike {}", x, direction, strike);
        }
    }
}

#[test]
fn largest_supported_count_keeps_the_ladder_at_or_above_zero() {
    // A count of 2002 ladders 1000 offsets around 1000.0, so the lowest
    // strike lands exactly on zero.
    let spot: u64 = 10_000_000;
    let v = generate_options_data(spot, 2002);
    assert_eq!(v.len(), 2 + 4 * (2002 / 2 - 1));
    let lowest = v.iter().map(|o| o.strike).min().unwrap();
    assert_eq!(lowest, spot - 1000 * SCALE);
}

#[test]
fn every_generated_record_is_in_range() {
    let v = generate_options_data(10_000_000, 100);
    for o in v.iter() {
        assert_record_ranges(o);
    }
}
