//! Spec-level decoding of the wire format.
//!
//! Consumers read the payload back with an ordinary JSON decoder. To pin
//! down that the rendering loses nothing, this module defines what such
//! a decoder extracts from a payload of this shape — the ticker, the two
//! prices, each record field by field — and proves that decoding a
//! rendered payload gives back exactly the snapshot it was rendered from.

use crate::chain::OptionData;
use crate::fixed::{
    all_digits, char_index, dec_digits, fixed_chars, is_digit, lemma_char_index_of_concat,
    lemma_dec_digits_are_digits, lemma_fixed_chars_shape, lemma_fixed_round_trip,
    lemma_parse_dec_digits, parse_dec, parse_fixed_chars,
};
use crate::json::{payload_chars, record_chars, records_chars, OptionsMarketData};
use vstd::prelude::*;

verus! {

/// `s` with prefix `p` removed, when `s` starts with `p`.
pub open spec fn strip_prefix(s: Seq<char>, p: Seq<char>) -> Option<Seq<char>> {
    if p.len() <= s.len() && s.take(p.len() as int) == p {
        Some(s.skip(p.len() as int))
    } else {
        None
    }
}

proof fn lemma_strip_prefix(p: Seq<char>, rest: Seq<char>)
    ensures
        strip_prefix(p + rest, p) == Some(rest),
{
    assert((p + rest).take(p.len() as int) =~= p);
    assert((p + rest).skip(p.len() as int) =~= rest);
}

/// A literal prefix, then a fixed-point value running up to `delim`:
/// the value and the remainder, which still starts with `delim`.
pub open spec fn parse_fixed_field(s: Seq<char>, p: Seq<char>, delim: char) -> Option<
    (u64, Seq<char>),
> {
    match strip_prefix(s, p) {
        Option::None => Option::None,
        Option::Some(s1) => {
            let i = char_index(s1, delim);
            if i < s1.len() {
                match parse_fixed_chars(s1.take(i)) {
                    Option::None => Option::None,
                    Option::Some(v) => Option::Some((v, s1.skip(i))),
                }
            } else {
                Option::None
            }
        },
    }
}

proof fn lemma_parse_fixed_field(p: Seq<char>, units: u64, rest: Seq<char>, delim: char)
    requires
        rest.len() > 0,
        rest[0] == delim,
        !is_digit(delim),
        delim != '.',
    ensures
        parse_fixed_field(p + fixed_chars(units) + rest, p, delim) == Option::Some((units, rest)),
{
    let f = fixed_chars(units);
    let s1 = f + rest;
    assert(p + f + rest =~= p + s1);
    lemma_strip_prefix(p, s1);
    lemma_fixed_chars_shape(units);
    assert forall|i: int| 0 <= i < f.len() implies f[i] != delim by {
        assert(is_digit(f[i]) || f[i] == '.');
    }
    lemma_char_index_of_concat(f, rest, delim);
    assert(char_index(s1, delim) == f.len());
    assert(s1.take(f.len() as int) =~= f);
    assert(s1.skip(f.len() as int) =~= rest);
    lemma_fixed_round_trip(units);
}

/// A literal prefix, then a small decimal number running up to a comma:
/// the number and the remainder, which still starts with the comma.
pub open spec fn parse_code_field(s: Seq<char>, p: Seq<char>) -> Option<(u8, Seq<char>)> {
    match strip_prefix(s, p) {
        Option::None => Option::None,
        Option::Some(s1) => {
            let i = char_index(s1, ',');
            let d = s1.take(i);
            if 1 <= i < s1.len() && all_digits(d) && parse_dec(d) <= u8::MAX {
                Option::Some(((parse_dec(d) as u8), s1.skip(i)))
            } else {
                Option::None
            }
        },
    }
}

proof fn lemma_parse_code_field(p: Seq<char>, code: u8, rest: Seq<char>)
    requires
        rest.len() > 0,
        rest[0] == ',',
    ensures
        parse_code_field(p + dec_digits(code as nat) + rest, p) == Option::Some((code, rest)),
{
    let d = dec_digits(code as nat);
    let s1 = d + rest;
    assert(p + d + rest =~= p + s1);
    lemma_strip_prefix(p, s1);
    lemma_dec_digits_are_digits(code as nat);
    assert forall|i: int| 0 <= i < d.len() implies d[i] != ',' by {
        assert(is_digit(d[i]));
    }
    lemma_char_index_of_concat(d, rest, ',');
    assert(s1.take(d.len() as int) =~= d);
    assert(s1.skip(d.len() as int) =~= rest);
    lemma_parse_dec_digits(code as nat);
}

/// One record and the text that follows it, read from the front of `s`.
pub open spec fn parse_record_chars(s: Seq<char>) -> Option<(OptionData, Seq<char>)> {
    match parse_code_field(s, "{\"direction\":"@) {
        Option::None => Option::None,
        Option::Some((direction, r1)) => match parse_fixed_field(r1, ",\"strike\":"@, ',') {
            Option::None => Option::None,
            Option::Some((strike, r2)) => match parse_fixed_field(
                r2,
                ",\"risk_free_rate\":"@,
                ',',
            ) {
                Option::None => Option::None,
                Option::Some((risk_free_rate, r3)) => match parse_fixed_field(
                    r3,
                    ",\"volatility\":"@,
                    ',',
                ) {
                    Option::None => Option::None,
                    Option::Some((volatility, r4)) => match parse_fixed_field(
                        r4,
                        ",\"dividend_yield\":"@,
                        '}',
                    ) {
                        Option::None => Option::None,
                        Option::Some((dividend_yield, r5)) => {
                            if r5.len() >= 1 && r5[0] == '}' {
                                Option::Some(
                                    (
                                        OptionData {
                                            direction,
                                            strike,
                                            risk_free_rate,
                                            volatility,
                                            dividend_yield,
                                        },
                                        r5.skip(1),
                                    ),
                                )
                            } else {
                                Option::None
                            }
                        },
                    },
                },
            },
        },
    }
}

proof fn lemma_parse_record(o: OptionData, tail: Seq<char>)
    ensures
        parse_record_chars(record_chars(o) + tail) == Option::Some((o, tail)),
{
    reveal_strlit("{\"direction\":");
    reveal_strlit(",\"strike\":");
    reveal_strlit(",\"risk_free_rate\":");
    reveal_strlit(",\"volatility\":");
    reveal_strlit(",\"dividend_yield\":");
    reveal_strlit("}");
    let t5 = "}"@ + tail;
    let t4 = ",\"dividend_yield\":"@ + fixed_chars(o.dividend_yield) + t5;
    let t3 = ",\"volatility\":"@ + fixed_chars(o.volatility) + t4;
    let t2 = ",\"risk_free_rate\":"@ + fixed_chars(o.risk_free_rate) + t3;
    let t1 = ",\"strike\":"@ + fixed_chars(o.strike) + t2;
    let s = record_chars(o) + tail;
    assert(s =~= "{\"direction\":"@ + dec_digits(o.direction as nat) + t1);
    lemma_parse_code_field("{\"direction\":"@, o.direction, t1);
    lemma_parse_fixed_field(",\"strike\":"@, o.strike, t2, ',');
    lemma_parse_fixed_field(",\"risk_free_rate\":"@, o.risk_free_rate, t3, ',');
    lemma_parse_fixed_field(",\"volatility\":"@, o.volatility, t4, ',');
    lemma_parse_fixed_field(",\"dividend_yield\":"@, o.dividend_yield, t5, '}');
    assert(t5.skip(1) =~= tail);
}

/// The records of a JSON array body, read from the front of `s` up to
/// (not past) the closing bracket; `fuel` bounds the recursion.
pub open spec fn parse_records_chars(s: Seq<char>, fuel: nat) -> Option<
    (Seq<OptionData>, Seq<char>),
>
    decreases fuel,
{
    if s.len() > 0 && s[0] == ']' {
        Option::Some((Seq::empty(), s))
    } else if fuel == 0 {
        Option::None
    } else {
        match parse_record_chars(s) {
            Option::None => Option::None,
            Option::Some((o, r)) => {
                if r.len() > 0 && r[0] == ',' {
                    match parse_records_chars(r.skip(1), (fuel - 1) as nat) {
                        Option::None => Option::None,
                        Option::Some((os, rest)) => Option::Some((seq![o] + os, rest)),
                    }
                } else if r.len() > 0 && r[0] == ']' {
                    Option::Some((seq![o], r))
                } else {
                    Option::None
                }
            },
        }
    }
}

/// `records_chars`, unfolded at the front instead of the back.
#[verifier::rlimit(100)]
proof fn lemma_records_chars_front(rs: Seq<OptionData>)
    requires
        rs.len() >= 2,
    ensures
        records_chars(rs) == record_chars(rs[0]) + seq![','] + records_chars(rs.drop_first()),
    decreases rs.len(),
{
    let dl = rs.drop_last();
    let df = rs.drop_first();
    let c = seq![','];
    assert(records_chars(rs) == records_chars(dl) + c + record_chars(rs.last()));
    if rs.len() == 2 {
        assert(dl =~= seq![rs[0]]);
        assert(records_chars(dl) == record_chars(rs[0]));
        assert(df =~= seq![rs[1]]);
        assert(records_chars(df) == record_chars(rs[1]));
        assert(rs.last() == rs[1]);
    } else {
        lemma_records_chars_front(dl);
        let y = records_chars(dl.drop_first());
        assert(records_chars(dl) == record_chars(dl[0]) + c + y);
        assert(dl[0] == rs[0]);
        assert(df.drop_last() =~= dl.drop_first());
        assert(df.last() == rs.last());
        assert(records_chars(df) == y + c + record_chars(rs.last()));
        let x = record_chars(rs[0]);
        let z = record_chars(rs.last());
        assert(records_chars(rs) == ((x + c) + y) + c + z);
        assert(((x + c) + y) + c + z =~= x + c + ((y + c) + z));
    }
}

/// A rendered record is never empty, so the rendering of `rs` is at
/// least as long as `rs` itself.
proof fn lemma_records_chars_len(rs: Seq<OptionData>)
    ensures
        records_chars(rs).len() >= rs.len(),
    decreases rs.len(),
{
    if rs.len() == 1 {
        lemma_dec_digits_are_digits(rs[0].direction as nat);
    } else if rs.len() >= 2 {
        lemma_records_chars_len(rs.drop_last());
        lemma_dec_digits_are_digits(rs.last().direction as nat);
    }
}

proof fn lemma_concat_assoc4(x: Seq<char>, c: Seq<char>, y: Seq<char>, t: Seq<char>)
    ensures
        ((x + c) + y) + t == x + (c + (y + t)),
        (x + c)[0] == if x.len() > 0 {
            x[0]
        } else {
            c[0]
        },
{
    assert(((x + c) + y) + t =~= x + (c + (y + t)));
}

/// A rendered record starts with the opening brace, never the bracket
/// that ends the array.
proof fn lemma_record_chars_head(o: OptionData)
    ensures
        record_chars(o).len() > 0,
        record_chars(o)[0] == '{',
{
    reveal_strlit("{\"direction\":");
    assert(record_chars(o)[0] == "{\"direction\":"@[0]);
}

#[verifier::rlimit(100)]
proof fn lemma_parse_records(rs: Seq<OptionData>, tail: Seq<char>, fuel: nat)
    requires
        fuel >= rs.len(),
        tail.len() > 0,
        tail[0] == ']',
    ensures
        parse_records_chars(records_chars(rs) + tail, fuel) == Option::Some((rs, tail)),
    decreases rs.len(),
{
    let s = records_chars(rs) + tail;
    if rs.len() == 0 {
        assert(s =~= tail);
    } else if rs.len() == 1 {
        assert(records_chars(rs) == record_chars(rs[0]));
        lemma_parse_record(rs[0], tail);
        lemma_record_chars_head(rs[0]);
        assert(s[0] == record_chars(rs[0])[0]);
        assert(seq![rs[0]] =~= rs);
    } else {
        lemma_records_chars_front(rs);
        let df = rs.drop_first();
        let x = record_chars(rs[0]);
        let c = seq![','];
        let y = records_chars(df);
        let r = c + (y + tail);
        lemma_concat_assoc4(x, c, y, tail);
        assert(s == x + r);
        lemma_parse_record(rs[0], r);
        lemma_record_chars_head(rs[0]);
        assert(s[0] == x[0]);
        assert(r[0] == ',');
        assert(r.skip(1) =~= y + tail);
        lemma_parse_records(df, tail, (fuel - 1) as nat);
        assert(seq![rs[0]] + df =~= rs);
    }
}

/// What a decoder extracts from a payload of the wire shape: the ticker,
/// the spot, the expiry, and the records in order. `None` for text of
/// any other shape.
pub open spec fn parse_payload_chars(s: Seq<char>) -> Option<
    (Seq<char>, u64, u64, Seq<OptionData>),
> {
    match strip_prefix(s, "{\"ticker\":\""@) {
        Option::None => Option::None,
        Option::Some(s1) => {
            let i = char_index(s1, '"');
            if i < s1.len() {
                let ticker = s1.take(i);
                match parse_fixed_field(s1.skip(i), "\",\"spot\":"@, ',') {
                    Option::None => Option::None,
                    Option::Some((spot, r1)) => match parse_fixed_field(
                        r1,
                        ",\"option_expiry\":"@,
                        ',',
                    ) {
                        Option::None => Option::None,
                        Option::Some((expiry, r2)) => match strip_prefix(
                            r2,
                            ",\"option_data\":["@,
                        ) {
                            Option::None => Option::None,
                            Option::Some(s4) => match parse_records_chars(s4, s4.len()) {
                                Option::None => Option::None,
                                Option::Some((os, rest)) => {
                                    if rest == "]}"@ {
                                        Option::Some((ticker, spot, expiry, os))
                                    } else {
                                        Option::None
                                    }
                                },
                            },
                        },
                    },
                }
            } else {
                Option::None
            }
        },
    }
}

/// Decoding the payload rendered for a snapshot gives back exactly the
/// snapshot's ticker, spot, expiry, and records. Holds for every ticker
/// free of a quote character; a ticker holding one is a configuration
/// error that the wire format does not escape.
pub proof fn lemma_payload_round_trip(m: OptionsMarketData)
    requires
        forall|i: int| 0 <= i < m.ticker@.len() ==> m.ticker@[i] != '"',
    ensures
        parse_payload_chars(payload_chars(m)) == Option::Some(
            (m.ticker@, m.spot, m.option_expiry, m.option_data@),
        ),
{
    reveal_strlit("{\"ticker\":\"");
    reveal_strlit("\",\"spot\":");
    reveal_strlit(",\"option_expiry\":");
    reveal_strlit(",\"option_data\":[");
    reveal_strlit("]}");
    let tail = "]}"@;
    let recs = records_chars(m.option_data@);
    let r2 = ",\"option_data\":["@ + (recs + tail);
    let r1 = ",\"option_expiry\":"@ + fixed_chars(m.option_expiry) + r2;
    let sp = "\",\"spot\":"@ + fixed_chars(m.spot) + r1;
    let s1 = m.ticker@ + sp;
    let s = payload_chars(m);
    assert(s =~= "{\"ticker\":\""@ + s1);
    lemma_strip_prefix("{\"ticker\":\""@, s1);
    lemma_char_index_of_concat(m.ticker@, sp, '"');
    assert(s1.take(m.ticker@.len() as int) =~= m.ticker@);
    assert(s1.skip(m.ticker@.len() as int) =~= sp);
    lemma_parse_fixed_field("\",\"spot\":"@, m.spot, r1, ',');
    lemma_parse_fixed_field(",\"option_expiry\":"@, m.option_expiry, r2, ',');
    lemma_strip_prefix(",\"option_data\":["@, recs + tail);
    lemma_records_chars_len(m.option_data@);
    lemma_parse_records(m.option_data@, tail, (recs + tail).len());
}

} // verus!
