//! Synthetic option-chain generation.
//!
//! A chain is a strike ladder around a reference price: one call and one
//! put at the money, then, for each whole-unit offset, a call and a put
//! on each side. Risk parameters are drawn fresh for every record from
//! fixed uniform ranges.

use crate::fixed::SCALE;
use vstd::prelude::*;

verus! {

/// Direction code of a call contract.
pub const CALL: u8 = 1;

/// Direction code of a put contract.
pub const PUT: u8 = 0;

/// Lower bound of `risk_free_rate` and `volatility`: 0.01.
pub const RATE_LO: u64 = 100;

/// Upper bound (exclusive) of `risk_free_rate` and `volatility`: 0.10.
pub const RATE_HI: u64 = 1000;

/// Lower bound of `dividend_yield`: 0.1.
pub const YIELD_LO: u64 = 1000;

/// Upper bound (exclusive) of `dividend_yield`: 1.0.
pub const YIELD_HI: u64 = 10000;

/// One synthetic contract. All fractional fields are fixed-point values
/// in units of `1 / SCALE`.
pub struct OptionData {
    /// `CALL` (1) or `PUT` (0).
    pub direction: u8,
    /// Strike price.
    pub strike: u64,
    /// Drawn uniformly from `[0.01, 0.10)`.
    pub risk_free_rate: u64,
    /// Drawn uniformly from `[0.01, 0.10)`.
    pub volatility: u64,
    /// Drawn uniformly from `[0.1, 1.0)`.
    pub dividend_yield: u64,
}

/// The record's direction code is a known code and its risk parameters
/// lie in the documented sampling ranges.
pub open spec fn record_well_formed(o: OptionData) -> bool {
    &&& o.direction == CALL || o.direction == PUT
    &&& RATE_LO <= o.risk_free_rate < RATE_HI
    &&& RATE_LO <= o.volatility < RATE_HI
    &&& YIELD_LO <= o.dividend_yield < YIELD_HI
}

/// Relies on `rand::random_range`: a value drawn uniformly from the
/// half-open range `lo..hi`; it panics when the range is empty, which
/// the precondition rules out.
#[verifier::external_body]
pub(crate) fn sample_uniform(lo: u64, hi: u64) -> (r: u64)
    requires
        lo < hi,
    ensures
        lo <= r < hi,
{
    rand::random_range(lo..hi)
}

/// Build one record with the given direction and strike and freshly
/// drawn risk parameters.
pub fn generate_option(direction: u8, strike: u64) -> (o: OptionData)
    requires
        direction == CALL || direction == PUT,
    ensures
        o.direction == direction,
        o.strike == strike,
        record_well_formed(o),
{
    OptionData {
        direction,
        strike,
        risk_free_rate: sample_uniform(RATE_LO, RATE_HI),
        volatility: sample_uniform(RATE_LO, RATE_HI),
        dividend_yield: sample_uniform(YIELD_LO, YIELD_HI),
    }
}

/// Number of records a chain for `count` requested options holds:
/// 2 at-the-money records, then 4 per ladder offset.
pub open spec fn chain_len(count: u16) -> int {
    if count / 2 <= 1 {
        2
    } else {
        2 + 4 * (count as int / 2 - 1)
    }
}

/// What the ladder record at index `i >= 2` looks like: the records of
/// offset `x` sit at the four indices starting at `2 + 4*(x - 1)`, as
/// call above, call below, put above, put below the reference price.
pub open spec fn ladder_record_ok(spot: u64, v: Seq<OptionData>, i: int) -> bool {
    let x = (i - 2) / 4 + 1;
    let pos = (i - 2) % 4;
    &&& record_well_formed(v[i])
    &&& v[i].direction == (if pos == 0 || pos == 1 {
        CALL
    } else {
        PUT
    })
    &&& v[i].strike == (if pos == 0 || pos == 2 {
        spot + x * SCALE
    } else {
        spot - x * SCALE
    })
}

/// The full shape of a generated chain: its length, the two at-the-money
/// records, and every ladder record.
pub open spec fn chain_shape(spot: u64, count: u16, v: Seq<OptionData>) -> bool {
    &&& v.len() == chain_len(count)
    &&& v[0].direction == CALL && v[0].strike == spot && record_well_formed(v[0])
    &&& v[1].direction == PUT && v[1].strike == spot && record_well_formed(v[1])
    &&& forall|i: int| 2 <= i < v.len() ==> #[trigger] ladder_record_ok(spot, v, i)
}

/// Build the chain for reference price `spot` and requested option count
/// `count`: two at-the-money records, then four records per offset
/// `x` in `1 .. count / 2`, struck one whole unit apart.
///
/// The bounds on `spot` keep every ladder strike representable; the
/// returned length is `chain_len(count)`, not `count`.
pub fn generate_options_data(spot: u64, count: u16) -> (v: Vec<OptionData>)
    requires
        spot >= (count as int / 2 - 1) * SCALE,
        spot + (count as int / 2 - 1) * SCALE <= u64::MAX,
    ensures
        chain_shape(spot, count, v@),
{
    let mut v: Vec<OptionData> = Vec::new();
    v.push(generate_option(CALL, spot));
    v.push(generate_option(PUT, spot));
    let half: u16 = count / 2;
    let mut x: u16 = 1;
    while x < half
        invariant
            1 <= x,
            half == count / 2,
            x <= half || x == 1,
            spot >= (half as int - 1) * SCALE,
            spot + (half as int - 1) * SCALE <= u64::MAX,
            v@.len() == 2 + 4 * (x as int - 1),
            v@[0].direction == CALL && v@[0].strike == spot && record_well_formed(v@[0]),
            v@[1].direction == PUT && v@[1].strike == spot && record_well_formed(v@[1]),
            forall|i: int| 2 <= i < v@.len() ==> #[trigger] ladder_record_ok(spot, v@, i),
        decreases half - x,
    {
        let offset: u64 = (x as u64) * SCALE;
        proof {
            assert(offset == x as int * SCALE);
            assert(x as int <= half as int - 1);
            assert(x as int * SCALE <= (half as int - 1) * SCALE) by (nonlinear_arith)
                requires
                    x as int <= half as int - 1,
                    SCALE > 0,
            ;
        }
        let ghost vs: Seq<OptionData> = v@;
        let ghost base: int = vs.len() as int;
        v.push(generate_option(CALL, spot + offset));
        v.push(generate_option(CALL, spot - offset));
        v.push(generate_option(PUT, spot + offset));
        v.push(generate_option(PUT, spot - offset));
        proof {
            assert forall|i: int| 2 <= i < v@.len() implies #[trigger] ladder_record_ok(
                spot,
                v@,
                i,
            ) by {
                if i < base {
                    assert(ladder_record_ok(spot, vs, i));
                    assert(v@[i] == vs[i]);
                } else {
                    assert((i - 2) / 4 + 1 == x as int);
                    assert((i - 2) % 4 == i - base);
                }
            }
        }
        x = x + 1;
    }
    proof {
        if half <= 1 {
            assert(v@.len() == 2);
        } else {
            assert(x == half);
            assert(v@.len() == 2 + 4 * (count as int / 2 - 1));
        }
    }
    v
}

/// A chain requested with a count of at most 3 holds exactly the two
/// at-the-money records: one call and one put, both struck at `spot`.
pub proof fn lemma_small_chain(spot: u64, count: u16, v: Seq<OptionData>)
    requires
        count <= 3,
        chain_shape(spot, count, v),
    ensures
        v.len() == 2,
        v[0].direction == CALL && v[0].strike == spot,
        v[1].direction == PUT && v[1].strike == spot,
{
}

/// Every record of a generated chain carries a known direction code and
/// risk parameters inside the documented sampling ranges.
pub proof fn lemma_records_well_formed(spot: u64, count: u16, v: Seq<OptionData>, i: int)
    requires
        chain_shape(spot, count, v),
        0 <= i < v.len(),
    ensures
        record_well_formed(v[i]),
{
    if i >= 2 {
        assert(ladder_record_ok(spot, v, i));
    }
}

/// The four iffs of `lemma_ladder_chain`, at one index.
proof fn lemma_ladder_at(spot: u64, count: u16, v: Seq<OptionData>, x: int, i: int)
    requires
        count >= 4,
        1 <= x <= count as int / 2 - 1,
        chain_shape(spot, count, v),
        0 <= i < v.len(),
    ensures
        (v[i].direction == CALL && v[i].strike == spot + x * SCALE) <==> i == 2 + 4 * (x - 1),
        (v[i].direction == CALL && v[i].strike == spot - x * SCALE) <==> i == 3 + 4 * (x - 1),
        (v[i].direction == PUT && v[i].strike == spot + x * SCALE) <==> i == 4 + 4 * (x - 1),
        (v[i].direction == PUT && v[i].strike == spot - x * SCALE) <==> i == 5 + 4 * (x - 1),
{
    let base = 2 + 4 * (x - 1);
    assert(base + 3 < v.len());
    assert(ladder_record_ok(spot, v, base));
    assert(ladder_record_ok(spot, v, base + 1));
    assert(ladder_record_ok(spot, v, base + 2));
    assert(ladder_record_ok(spot, v, base + 3));
    assert((base - 2) / 4 + 1 == x && (base - 2) % 4 == 0);
    assert((base - 1) / 4 + 1 == x && (base - 1) % 4 == 1);
    assert(base / 4 + 1 == x && base % 4 == 2);
    assert((base + 1) / 4 + 1 == x && (base + 1) % 4 == 3);
    assert(x * SCALE >= SCALE);
    if i >= 2 {
        assert(ladder_record_ok(spot, v, i));
        let xi = (i - 2) / 4 + 1;
        let pos = (i - 2) % 4;
        assert(i - 2 == 4 * (xi - 1) + pos);
        assert(xi >= 1);
        assert(xi * SCALE >= SCALE);
    }
}

/// A chain requested with a count of at least 4 holds
/// `2 + 4 * (count / 2 - 1)` records, and for every offset `x` up to
/// `count / 2 - 1` each of the four ladder records — call and put,
/// struck `x` whole units above and below `spot` — occurs at exactly
/// one index.
pub proof fn lemma_ladder_chain(spot: u64, count: u16, v: Seq<OptionData>, x: int)
    requires
        count >= 4,
        1 <= x <= count as int / 2 - 1,
        chain_shape(spot, count, v),
    ensures
        v.len() == 2 + 4 * (count as int / 2 - 1),
        forall|i: int|
            #![trigger v[i]]
            0 <= i < v.len() ==> ((v[i].direction == CALL && v[i].strike == spot + x * SCALE) <==> i
                == 2 + 4 * (x - 1)),
        forall|i: int|
            #![trigger v[i]]
            0 <= i < v.len() ==> ((v[i].direction == CALL && v[i].strike == spot - x * SCALE) <==> i
                == 3 + 4 * (x - 1)),
        forall|i: int|
            #![trigger v[i]]
            0 <= i < v.len() ==> ((v[i].direction == PUT && v[i].strike == spot + x * SCALE) <==> i
                == 4 + 4 * (x - 1)),
        forall|i: int|
            #![trigger v[i]]
            0 <= i < v.len() ==> ((v[i].direction == PUT && v[i].strike == spot - x * SCALE) <==> i
                == 5 + 4 * (x - 1)),
{
    assert forall|i: int| #![trigger v[i]] 0 <= i < v.len() implies ((v[i].direction == CALL
        && v[i].strike == spot + x * SCALE) <==> i == 2 + 4 * (x - 1)) && ((v[i].direction == CALL
        && v[i].strike == spot - x * SCALE) <==> i == 3 + 4 * (x - 1)) && ((v[i].direction == PUT
        && v[i].strike == spot + x * SCALE) <==> i == 4 + 4 * (x - 1)) && ((v[i].direction == PUT
        && v[i].strike == spot - x * SCALE) <==> i == 5 + 4 * (x - 1)) by {
        lemma_ladder_at(spot, count, v, x, i);
    }
}

} // verus!
