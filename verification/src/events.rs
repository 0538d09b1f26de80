//! Typed inbound events and their strict per-field decoding.
//!
//! The transport shim unpacks one frame into these raw shapes without
//! interpreting any number; every string-decimal field is decoded here,
//! against the configured scales, by the verified fixed-point parser. A
//! record with any malformed field is dropped whole, and in a batch each
//! malformed entry is skipped individually — decoding never aborts a batch.

use vstd::prelude::*;

use crate::candles::CandleInput;
use crate::decimal::{decimal_val, decimal_valid, parse_scaled};

verus! {

/// One decoded trade print.
#[derive(Clone, Copy, Debug, PartialEq, Eq, Structural)]
pub struct Trade {
    pub price: u64,
    pub quantity: u64,
    pub time: u64,
    pub is_seller_initiated: bool,
}

/// A trade print as transported: price and quantity still string-decimals.
#[derive(Clone, Debug)]
pub struct RawTrade {
    pub price: Vec<u8>,
    pub quantity: Vec<u8>,
    pub time: u64,
    pub is_seller_initiated: bool,
}

/// One `[price, quantity]` row of a book snapshot or delta.
#[derive(Clone, Debug)]
pub struct RawPair {
    pub price: Vec<u8>,
    pub quantity: Vec<u8>,
}

/// A candle tick or backfill row as transported.
#[derive(Clone, Debug)]
pub struct RawCandle {
    pub open_time: u64,
    pub open: Vec<u8>,
    pub high: Vec<u8>,
    pub low: Vec<u8>,
    pub close: Vec<u8>,
    pub volume: Vec<u8>,
    pub buy_volume: Vec<u8>,
    pub close_time: u64,
}

/// One open-interest sample as transported.
#[derive(Clone, Debug)]
pub struct RawOiSample {
    pub time: u64,
    pub value: Vec<u8>,
}

/// A string-decimal field reads as a fixed-point `u64` at this scale.
pub open spec fn field_ok(s: Seq<u8>, scale: nat) -> bool {
    decimal_valid(s, scale) && decimal_val(s, scale) <= u64::MAX
}

/// The fixed-point value of a readable field.
pub open spec fn field_val(s: Seq<u8>, scale: nat) -> int {
    decimal_val(s, scale)
}

/// The trade a raw print decodes to.
pub open spec fn trade_of(raw: RawTrade, ps: nat, qs: nat) -> Trade {
    Trade {
        price: field_val(raw.price@, ps) as u64,
        quantity: field_val(raw.quantity@, qs) as u64,
        time: raw.time,
        is_seller_initiated: raw.is_seller_initiated,
    }
}

/// Decodes one trade print; `None` exactly when a field is malformed.
pub fn decode_trade(raw: &RawTrade, price_scale: u32, qty_scale: u32) -> (r: Option<Trade>)
    requires
        price_scale <= 19,
        qty_scale <= 19,
    ensures
        r.is_some() <==> field_ok(raw.price@, price_scale as nat) && field_ok(
            raw.quantity@,
            qty_scale as nat,
        ),
        r.is_some() ==> r == Some(trade_of(*raw, price_scale as nat, qty_scale as nat)),
{
    let price = match parse_scaled(raw.price.as_slice(), price_scale) {
        Some(v) => v,
        None => {
            return None;
        },
    };
    let quantity = match parse_scaled(raw.quantity.as_slice(), qty_scale) {
        Some(v) => v,
        None => {
            return None;
        },
    };
    Some(Trade { price, quantity, time: raw.time, is_seller_initiated: raw.is_seller_initiated })
}

/// The `(price, quantity)` a raw book row decodes to.
pub open spec fn pair_of(raw: RawPair, ps: nat, qs: nat) -> (u64, u64) {
    (field_val(raw.price@, ps) as u64, field_val(raw.quantity@, qs) as u64)
}

/// A raw book row decodes cleanly at these scales.
pub open spec fn pair_ok(raw: RawPair, ps: nat, qs: nat) -> bool {
    field_ok(raw.price@, ps) && field_ok(raw.quantity@, qs)
}

/// Decodes one book row; `None` exactly when a field is malformed.
pub fn decode_pair(raw: &RawPair, price_scale: u32, qty_scale: u32) -> (r: Option<(u64, u64)>)
    requires
        price_scale <= 19,
        qty_scale <= 19,
    ensures
        r.is_some() <==> pair_ok(*raw, price_scale as nat, qty_scale as nat),
        r.is_some() ==> r == Some(pair_of(*raw, price_scale as nat, qty_scale as nat)),
{
    let price = match parse_scaled(raw.price.as_slice(), price_scale) {
        Some(v) => v,
        None => {
            return None;
        },
    };
    let quantity = match parse_scaled(raw.quantity.as_slice(), qty_scale) {
        Some(v) => v,
        None => {
            return None;
        },
    };
    Some((price, quantity))
}

/// The rows of a batch that decode cleanly, in order, each skipped
/// individually when malformed.
pub open spec fn decoded_pairs(rows: Seq<RawPair>, ps: nat, qs: nat) -> Seq<(u64, u64)>
    decreases rows.len(),
{
    if rows.len() == 0 {
        Seq::empty()
    } else {
        let rest = decoded_pairs(rows.drop_last(), ps, qs);
        if pair_ok(rows.last(), ps, qs) {
            rest.push(pair_of(rows.last(), ps, qs))
        } else {
            rest
        }
    }
}

/// Decodes a batch of book rows, skipping each malformed row.
pub fn decode_pairs(rows: &Vec<RawPair>, price_scale: u32, qty_scale: u32) -> (r: Vec<(u64, u64)>)
    requires
        price_scale <= 19,
        qty_scale <= 19,
    ensures
        r@ == decoded_pairs(rows@, price_scale as nat, qty_scale as nat),
{
    let mut out: Vec<(u64, u64)> = Vec::new();
    let n = rows.len();
    let mut i: usize = 0;
    while i < n
        invariant
            0 <= i <= n == rows@.len(),
            price_scale <= 19,
            qty_scale <= 19,
            out@ == decoded_pairs(rows@.take(i as int), price_scale as nat, qty_scale as nat),
        decreases n - i,
    {
        proof {
            assert(rows@.take(i + 1).drop_last() =~= rows@.take(i as int));
            assert(rows@.take(i + 1).last() == rows@[i as int]);
        }
        match decode_pair(&rows[i], price_scale, qty_scale) {
            Some(p) => {
                out.push(p);
            },
            None => {},
        }
        i = i + 1;
    }
    assert(rows@.take(n as int) =~= rows@);
    out
}

/// The trades of a batch that decode cleanly, in order.
pub open spec fn decoded_trades(rows: Seq<RawTrade>, ps: nat, qs: nat) -> Seq<Trade>
    decreases rows.len(),
{
    if rows.len() == 0 {
        Seq::empty()
    } else {
        let rest = decoded_trades(rows.drop_last(), ps, qs);
        if field_ok(rows.last().price@, ps) && field_ok(rows.last().quantity@, qs) {
            rest.push(trade_of(rows.last(), ps, qs))
        } else {
            rest
        }
    }
}

/// Decodes a batch of trade prints, skipping each malformed print.
pub fn decode_trades(rows: &Vec<RawTrade>, price_scale: u32, qty_scale: u32) -> (r: Vec<Trade>)
    requires
        price_scale <= 19,
        qty_scale <= 19,
    ensures
        r@ == decoded_trades(rows@, price_scale as nat, qty_scale as nat),
{
    let mut out: Vec<Trade> = Vec::new();
    let n = rows.len();
    let mut i: usize = 0;
    while i < n
        invariant
            0 <= i <= n == rows@.len(),
            price_scale <= 19,
            qty_scale <= 19,
            out@ == decoded_trades(rows@.take(i as int), price_scale as nat, qty_scale as nat),
        decreases n - i,
    {
        proof {
            assert(rows@.take(i + 1).drop_last() =~= rows@.take(i as int));
            assert(rows@.take(i + 1).last() == rows@[i as int]);
        }
        match decode_trade(&rows[i], price_scale, qty_scale) {
            Some(t) => {
                out.push(t);
            },
            None => {},
        }
        i = i + 1;
    }
    assert(rows@.take(n as int) =~= rows@);
    out
}

/// Every decimal field of a candle record reads at these scales.
pub open spec fn candle_ok(raw: RawCandle, ps: nat, qs: nat) -> bool {
    &&& field_ok(raw.open@, ps)
    &&& field_ok(raw.high@, ps)
    &&& field_ok(raw.low@, ps)
    &&& field_ok(raw.close@, ps)
    &&& field_ok(raw.volume@, qs)
    &&& field_ok(raw.buy_volume@, qs)
}

/// The candle record a raw row decodes to.
pub open spec fn candle_of(raw: RawCandle, ps: nat, qs: nat) -> CandleInput {
    CandleInput {
        open_time: raw.open_time,
        open: field_val(raw.open@, ps) as u64,
        high: field_val(raw.high@, ps) as u64,
        low: field_val(raw.low@, ps) as u64,
        close: field_val(raw.close@, ps) as u64,
        volume: field_val(raw.volume@, qs) as u64,
        buy_volume: field_val(raw.buy_volume@, qs) as u64,
        close_time: raw.close_time,
    }
}

/// Decodes one candle record; a record with any malformed numeric field is
/// dropped whole — `None` exactly then.
pub fn decode_candle(raw: &RawCandle, price_scale: u32, qty_scale: u32) -> (r: Option<CandleInput>)
    requires
        price_scale <= 19,
        qty_scale <= 19,
    ensures
        r.is_some() <==> candle_ok(*raw, price_scale as nat, qty_scale as nat),
        r.is_some() ==> r == Some(candle_of(*raw, price_scale as nat, qty_scale as nat)),
{
    let open = match parse_scaled(raw.open.as_slice(), price_scale) {
        Some(v) => v,
        None => {
            return None;
        },
    };
    let high = match parse_scaled(raw.high.as_slice(), price_scale) {
        Some(v) => v,
        None => {
            return None;
        },
    };
    let low = match parse_scaled(raw.low.as_slice(), price_scale) {
        Some(v) => v,
        None => {
            return None;
        },
    };
    let close = match parse_scaled(raw.close.as_slice(), price_scale) {
        Some(v) => v,
        None => {
            return None;
        },
    };
    let volume = match parse_scaled(raw.volume.as_slice(), qty_scale) {
        Some(v) => v,
        None => {
            return None;
        },
    };
    let buy_volume = match parse_scaled(raw.buy_volume.as_slice(), qty_scale) {
        Some(v) => v,
        None => {
            return None;
        },
    };
    Some(
        CandleInput {
            open_time: raw.open_time,
            open,
            high,
            low,
            close,
            volume,
            buy_volume,
            close_time: raw.close_time,
        },
    )
}

/// The candle records of a backfill response that decode cleanly, in order.
pub open spec fn decoded_candles(rows: Seq<RawCandle>, ps: nat, qs: nat) -> Seq<CandleInput>
    decreases rows.len(),
{
    if rows.len() == 0 {
        Seq::empty()
    } else {
        let rest = decoded_candles(rows.drop_last(), ps, qs);
        if candle_ok(rows.last(), ps, qs) {
            rest.push(candle_of(rows.last(), ps, qs))
        } else {
            rest
        }
    }
}

/// Decodes a candle backfill response, dropping each malformed row whole.
pub fn decode_candles(rows: &Vec<RawCandle>, price_scale: u32, qty_scale: u32) -> (r: Vec<
    CandleInput,
>)
    requires
        price_scale <= 19,
        qty_scale <= 19,
    ensures
        r@ == decoded_candles(rows@, price_scale as nat, qty_scale as nat),
{
    let mut out: Vec<CandleInput> = Vec::new();
    let n = rows.len();
    let mut i: usize = 0;
    while i < n
        invariant
            0 <= i <= n == rows@.len(),
            price_scale <= 19,
            qty_scale <= 19,
            out@ == decoded_candles(rows@.take(i as int), price_scale as nat, qty_scale as nat),
        decreases n - i,
    {
        proof {
            assert(rows@.take(i + 1).drop_last() =~= rows@.take(i as int));
            assert(rows@.take(i + 1).last() == rows@[i as int]);
        }
        match decode_candle(&rows[i], price_scale, qty_scale) {
            Some(c) => {
                out.push(c);
            },
            None => {},
        }
        i = i + 1;
    }
    assert(rows@.take(n as int) =~= rows@);
    out
}

/// Decodes one open-interest sample; `None` exactly when the value field is
/// malformed.
pub fn decode_oi(raw: &RawOiSample, scale: u32) -> (r: Option<(u64, u64)>)
    requires
        scale <= 19,
    ensures
        r.is_some() <==> field_ok(raw.value@, scale as nat),
        r.is_some() ==> r == Some((raw.time, field_val(raw.value@, scale as nat) as u64)),
{
    match parse_scaled(raw.value.as_slice(), scale) {
        Some(v) => Some((raw.time, v)),
        None => None,
    }
}

} // verus!
