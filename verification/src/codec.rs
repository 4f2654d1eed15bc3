//! Value codec: total conversion of every native column value the
//! embedded engine can produce into a JSON value.
//!
//! The conversion fails only where a temporal component is
//! numerically out of range, or where a map key has no natural
//! string form; every other variant always converts. Numbers wider
//! than 64 signed bits and arbitrary-precision decimals become JSON
//! strings to avoid precision loss; a float that is not finite
//! becomes JSON null.

use vstd::prelude::*;

use crate::error::Error;
use crate::strutil::spec_idec_str;
use crate::strutil::spec_udec_str;

verus! {

/// The time unit a temporal native value is stored in.
#[derive(Debug, Clone, Copy, PartialEq, Eq, Structural)]
pub enum TimeUnit {
    Second,
    Millisecond,
    Microsecond,
    Nanosecond,
}

/// A float carried through the codec: the decimal text it renders
/// to when finite, or the marker for NaN and the infinities. The
/// driver that reads column values from the engine supplies this
/// classification; the codec itself never touches float arithmetic.
#[derive(Debug, Clone, PartialEq, Eq)]
pub enum FloatValue {
    Finite(String),
    NonFinite,
}

/// A native column value of the embedded engine.
#[derive(Debug)]
pub enum NativeValue {
    Null,
    Boolean(bool),
    TinyInt(i8),
    SmallInt(i16),
    Int(i32),
    BigInt(i64),
    HugeInt(i128),
    UTinyInt(u8),
    USmallInt(u16),
    UInt(u32),
    UBigInt(u64),
    Float(FloatValue),
    Double(FloatValue),
    Decimal(String),
    Timestamp(TimeUnit, i64),
    Text(String),
    Blob(Vec<u8>),
    Date32(i32),
    Time64(TimeUnit, i64),
    Interval { months: i32, days: i32, nanos: i64 },
    List(Vec<NativeValue>),
    Enum(String),
    Struct(Vec<(String, NativeValue)>),
    Mapping(Vec<(NativeValue, NativeValue)>),
    Array(Vec<NativeValue>),
    Union(Box<NativeValue>),
}

/// A JSON number: a signed or unsigned 64-bit integer, or the
/// decimal text of a finite float.
#[derive(Debug, Clone, PartialEq, Eq)]
pub enum JsonNumber {
    Int(i64),
    UInt(u64),
    Float(String),
}

/// A JSON value. Objects keep their entries in insertion order with
/// each key at most once.
#[derive(Debug, PartialEq, Eq)]
pub enum JsonValue {
    Null,
    Bool(bool),
    Number(JsonNumber),
    Text(String),
    Array(Vec<JsonValue>),
    Object(Vec<(String, JsonValue)>),
}

/// Mathematical content of a JSON value.
pub ghost enum JsonVal {
    Null,
    Bool(bool),
    Int(int),
    FloatText(Seq<char>),
    Text(Seq<char>),
    Array(Seq<JsonVal>),
    Object(Seq<(Seq<char>, JsonVal)>),
}

/// Mathematical content of a JSON value, structurally.
pub open spec fn json_view(v: JsonValue) -> JsonVal
    decreases v,
{
    match v {
        JsonValue::Null => JsonVal::Null,
        JsonValue::Bool(b) => JsonVal::Bool(b),
        JsonValue::Number(n) => match n {
            JsonNumber::Int(i) => JsonVal::Int(i as int),
            JsonNumber::UInt(u) => JsonVal::Int(u as int),
            JsonNumber::Float(s) => JsonVal::FloatText(s@),
        },
        JsonValue::Text(s) => JsonVal::Text(s@),
        JsonValue::Array(items) => JsonVal::Array(jsons_view(items@)),
        JsonValue::Object(fields) => JsonVal::Object(jfields_view(fields@)),
    }
}

/// Elementwise mathematical content of a sequence of JSON values.
pub open spec fn jsons_view(s: Seq<JsonValue>) -> Seq<JsonVal>
    decreases s,
{
    if s.len() == 0 {
        Seq::empty()
    } else {
        seq![json_view(s[0])] + jsons_view(s.drop_first())
    }
}

/// Elementwise mathematical content of object entries.
pub open spec fn jfields_view(s: Seq<(String, JsonValue)>) -> Seq<(Seq<char>, JsonVal)>
    decreases s,
{
    if s.len() == 0 {
        Seq::empty()
    } else {
        seq![(s[0].0@, json_view(s[0].1))] + jfields_view(s.drop_first())
    }
}

pub proof fn lemma_jsons_view_index(s: Seq<JsonValue>)
    ensures
        jsons_view(s).len() == s.len(),
        forall|i: int| 0 <= i < s.len() ==> jsons_view(s)[i] == json_view(#[trigger] s[i]),
    decreases s,
{
    if s.len() > 0 {
        lemma_jsons_view_index(s.drop_first());
        assert(forall|i: int| 0 < i < s.len() ==> s.drop_first()[i - 1] == #[trigger] s[i]);
    }
}

pub proof fn lemma_jfields_view_index(s: Seq<(String, JsonValue)>)
    ensures
        jfields_view(s).len() == s.len(),
        forall|i: int| 0 <= i < s.len() ==> jfields_view(s)[i] == ((#[trigger] s[i]).0@,
        json_view(s[i].1)),
    decreases s,
{
    if s.len() > 0 {
        lemma_jfields_view_index(s.drop_first());
        assert(forall|i: int| 0 < i < s.len() ==> s.drop_first()[i - 1] == #[trigger] s[i]);
    }
}

impl View for JsonValue {
    type V = JsonVal;

    open spec fn view(&self) -> JsonVal {
        json_view(*self)
    }
}

/// RFC 3339 rendering of the UTC instant `secs` seconds and `nanos`
/// nanoseconds after the epoch, or `None` when out of range. Named
/// after `chrono::DateTime::from_timestamp` followed by `%+`
/// formatting; the text depends on the two numbers alone.
pub uninterp spec fn rfc3339_of(secs: int, nanos: int) -> Option<Seq<char>>;

/// ISO 8601 rendering of the date `days_from_ce` days after the
/// start of the common era (day 1 being 0001-01-01), or `None` when
/// out of range. Named after
/// `chrono::NaiveDate::from_num_days_from_ce_opt`.
pub uninterp spec fn iso_date_of(days_from_ce: int) -> Option<Seq<char>>;

/// ISO 8601 rendering of the time of day `secs` seconds and `nanos`
/// nanoseconds after midnight, or `None` when out of range. Named
/// after `chrono::NaiveTime::from_num_seconds_from_midnight_opt`.
pub uninterp spec fn iso_time_of(secs: int, nanos: int) -> Option<Seq<char>>;

/// Relies on `chrono::DateTime::from_timestamp` and its RFC 3339
/// (`%+`) formatting: the result depends on the seconds and
/// nanoseconds alone; out-of-range seconds or nanoseconds give
/// `None`, and seconds within ±8e12 of the epoch (about ±253,000
/// years, inside chrono's range) with nanoseconds below one billion
/// always give `Some`.
#[verifier::external_body]
fn fmt_timestamp(secs: i64, nanos: u32) -> (r: Option<String>)
    ensures
        r matches Some(s) ==> rfc3339_of(secs as int, nanos as int) == Some(s@),
        r is None ==> rfc3339_of(secs as int, nanos as int) is None,
        -8_000_000_000_000 <= secs <= 8_000_000_000_000 && nanos < 1_000_000_000 ==> r is Some,
{
    chrono::DateTime::from_timestamp(secs, nanos).map(|dt| dt.format("%+").to_string())
}

/// Relies on `chrono::NaiveDate::from_num_days_from_ce_opt` and its
/// ISO 8601 `Display`: the result depends on the day number alone;
/// out-of-range day numbers give `None`, and day numbers within
/// ±95,000,000 (inside chrono's ±262,000-year range) always give
/// `Some`.
#[verifier::external_body]
fn fmt_date(days_from_ce: i32) -> (r: Option<String>)
    ensures
        r matches Some(s) ==> iso_date_of(days_from_ce as int) == Some(s@),
        r is None ==> iso_date_of(days_from_ce as int) is None,
        -95_000_000 <= days_from_ce <= 95_000_000 ==> r is Some,
{
    chrono::NaiveDate::from_num_days_from_ce_opt(days_from_ce).map(|d| d.to_string())
}

/// A second and nanosecond pair names a time of day: the seconds
/// fit a day, the nanoseconds stay below two billion, and a leap
/// second (one billion nanoseconds or more) only closes a minute.
pub open spec fn spec_time_in_range(secs: int, nanos: int) -> bool {
    &&& secs < 86_400
    &&& nanos < 2_000_000_000
    &&& nanos >= 1_000_000_000 ==> secs % 60 == 59
}

/// Relies on `chrono::NaiveTime::from_num_seconds_from_midnight_opt`
/// and its ISO 8601 `Display`: the result depends on the two numbers
/// alone, and is `Some` exactly on the in-range pairs.
#[verifier::external_body]
fn fmt_time(secs: u32, nanos: u32) -> (r: Option<String>)
    ensures
        r matches Some(s) ==> iso_time_of(secs as int, nanos as int) == Some(s@),
        r is None ==> iso_time_of(secs as int, nanos as int) is None,
        r is Some <==> spec_time_in_range(secs as int, nanos as int),
{
    chrono::NaiveTime::from_num_seconds_from_midnight_opt(secs, nanos).map(|t| t.to_string())
}

/// Truncating (toward zero) division, as the engine applies it when
/// narrowing nanoseconds to microseconds.
pub open spec fn spec_trunc_div(a: int, b: int) -> int {
    if a >= 0 {
        a / b
    } else {
        -((-a) / b)
    }
}

/// The seconds and nanoseconds a stored timestamp splits into,
/// following the engine's unit.
pub open spec fn spec_timestamp_split(unit: TimeUnit, amount: int) -> (int, int) {
    match unit {
        TimeUnit::Second => (amount, 0),
        TimeUnit::Millisecond => (amount / 1000, (amount % 1000) * 1_000_000),
        TimeUnit::Microsecond => (amount / 1_000_000, (amount % 1_000_000) * 1000),
        TimeUnit::Nanosecond => (amount / 1_000_000_000, amount % 1_000_000_000),
    }
}

/// A stored timestamp rendered to RFC 3339 text, or `None` when the
/// calendar conversion is out of range.
pub open spec fn spec_convert_timestamp(unit: TimeUnit, amount: int) -> Option<JsonVal> {
    let sn = spec_timestamp_split(unit, amount);
    match rfc3339_of(sn.0, sn.1) {
        Some(s) => Some(JsonVal::Text(s)),
        None => None,
    }
}

/// Days from the epoch to days from the common era.
pub open spec fn spec_epoch_day_to_ce(days: int) -> int {
    days + 719_163
}

/// A stored date rendered to ISO 8601 text, or `None` when out of
/// range.
pub open spec fn spec_convert_date(days: int) -> Option<JsonVal> {
    let d = spec_epoch_day_to_ce(days);
    if d < -0x8000_0000 || d > 0x7fff_ffff {
        None
    } else {
        match iso_date_of(d) {
            Some(s) => Some(JsonVal::Text(s)),
            None => None,
        }
    }
}

/// A stored time of day rendered to ISO 8601 text, or `None` when
/// the microsecond widening overflows, the offset is negative, or
/// the calendar conversion is out of range.
pub open spec fn spec_convert_time(unit: TimeUnit, amount: int) -> Option<JsonVal> {
    let micros = match unit {
        TimeUnit::Second => amount * 1_000_000,
        TimeUnit::Millisecond => amount * 1000,
        TimeUnit::Microsecond => amount,
        TimeUnit::Nanosecond => spec_trunc_div(amount, 1000),
    };
    if micros < -0x8000_0000_0000_0000 || micros > 0x7fff_ffff_ffff_ffff {
        None
    } else if micros < 0 {
        None
    } else {
        let secs = micros / 1_000_000;
        let nanos = (micros % 1_000_000) * 1000;
        if secs > 0xffff_ffff {
            None
        } else {
            match iso_time_of(secs, nanos) {
                Some(s) => Some(JsonVal::Text(s)),
                None => None,
            }
        }
    }
}

/// The string form a JSON value takes as an object key: strings as
/// they are, booleans and numbers and null through their textual
/// form; arrays and objects have none.
pub open spec fn spec_key_string(j: JsonVal) -> Option<Seq<char>> {
    match j {
        JsonVal::Text(s) => Some(s),
        JsonVal::Bool(b) => Some(
            if b {
                "true"@
            } else {
                "false"@
            },
        ),
        JsonVal::Int(i) => Some(spec_idec_str(i)),
        JsonVal::FloatText(s) => Some(s),
        JsonVal::Null => Some("null"@),
        JsonVal::Array(_) => None,
        JsonVal::Object(_) => None,
    }
}

/// Index of the first object entry with key `k`, or `-1` when none.
pub open spec fn spec_obj_key_index(entries: Seq<(Seq<char>, JsonVal)>, k: Seq<char>) -> int
    decreases entries.len(),
{
    if entries.len() == 0 {
        -1
    } else if entries[0].0 == k {
        0
    } else {
        let r = spec_obj_key_index(entries.drop_first(), k);
        if r == -1 {
            -1
        } else {
            r + 1
        }
    }
}

/// One entry written into an object: the first entry with its key
/// is replaced, or the pair is appended.
pub open spec fn spec_obj_insert(
    entries: Seq<(Seq<char>, JsonVal)>,
    k: Seq<char>,
    v: JsonVal,
) -> Seq<(Seq<char>, JsonVal)> {
    let i = spec_obj_key_index(entries, k);
    if i >= 0 {
        entries.update(i, (k, v))
    } else {
        entries.push((k, v))
    }
}

/// The conversion of one native value, `None` standing for a
/// conversion error.
pub open spec fn spec_to_json(v: NativeValue) -> Option<JsonVal>
    decreases v,
{
    match v {
        NativeValue::Null => Some(JsonVal::Null),
        NativeValue::Boolean(b) => Some(JsonVal::Bool(b)),
        NativeValue::TinyInt(i) => Some(JsonVal::Int(i as int)),
        NativeValue::SmallInt(i) => Some(JsonVal::Int(i as int)),
        NativeValue::Int(i) => Some(JsonVal::Int(i as int)),
        NativeValue::BigInt(i) => Some(JsonVal::Int(i as int)),
        NativeValue::HugeInt(i) => Some(JsonVal::Text(spec_idec_str(i as int))),
        NativeValue::UTinyInt(i) => Some(JsonVal::Int(i as int)),
        NativeValue::USmallInt(i) => Some(JsonVal::Int(i as int)),
        NativeValue::UInt(i) => Some(JsonVal::Int(i as int)),
        NativeValue::UBigInt(i) => Some(JsonVal::Int(i as int)),
        NativeValue::Float(f) => Some(spec_float_to_json(f)),
        NativeValue::Double(f) => Some(spec_float_to_json(f)),
        NativeValue::Decimal(s) => Some(JsonVal::Text(s@)),
        NativeValue::Timestamp(unit, amount) => spec_convert_timestamp(unit, amount as int),
        NativeValue::Text(s) => Some(JsonVal::Text(s@)),
        NativeValue::Blob(bytes) => Some(
            JsonVal::Array(bytes@.map_values(|b: u8| JsonVal::Int(b as int))),
        ),
        NativeValue::Date32(days) => spec_convert_date(days as int),
        NativeValue::Time64(unit, amount) => spec_convert_time(unit, amount as int),
        NativeValue::Interval { months, days, nanos } => Some(
            JsonVal::Object(
                seq![
                    ("months"@, JsonVal::Int(months as int)),
                    ("days"@, JsonVal::Int(days as int)),
                    ("nanos"@, JsonVal::Int(nanos as int)),
                ],
            ),
        ),
        NativeValue::List(items) => match spec_items_to_json(items@) {
            None => None,
            Some(s) => Some(JsonVal::Array(s)),
        },
        NativeValue::Enum(s) => Some(JsonVal::Text(s@)),
        NativeValue::Struct(fields) => spec_struct_to_json(fields@, Seq::empty()),
        NativeValue::Mapping(entries) => spec_map_to_json(entries@, Seq::empty()),
        NativeValue::Array(items) => match spec_items_to_json(items@) {
            None => None,
            Some(s) => Some(JsonVal::Array(s)),
        },
        NativeValue::Union(inner) => spec_to_json(*inner),
    }
}

/// A finite float becomes the JSON number its text spells; any
/// other float becomes JSON null.
pub open spec fn spec_float_to_json(f: FloatValue) -> JsonVal {
    match f {
        FloatValue::Finite(s) => JsonVal::FloatText(s@),
        FloatValue::NonFinite => JsonVal::Null,
    }
}

/// Elementwise conversion of a sequence of native values; one
/// failing element fails the whole.
pub open spec fn spec_items_to_json(items: Seq<NativeValue>) -> Option<Seq<JsonVal>>
    decreases items,
{
    if items.len() == 0 {
        Some(Seq::empty())
    } else {
        match spec_to_json(items[0]) {
            None => None,
            Some(j) => match spec_items_to_json(items.drop_first()) {
                None => None,
                Some(rest) => Some(seq![j] + rest),
            },
        }
    }
}


/// Fieldwise conversion of a struct into an object, keeping field
/// order; one failing field fails the struct.
pub open spec fn spec_struct_to_json(
    fields: Seq<(String, NativeValue)>,
    acc: Seq<(Seq<char>, JsonVal)>,
) -> Option<JsonVal>
    decreases fields,
{
    if fields.len() == 0 {
        Some(JsonVal::Object(acc))
    } else {
        match spec_to_json(fields[0].1) {
            None => None,
            Some(j) => spec_struct_to_json(
                fields.drop_first(),
                spec_obj_insert(acc, fields[0].0@, j),
            ),
        }
    }
}

pub proof fn lemma_items_to_json_character(items: Seq<NativeValue>)
    ensures
        spec_items_to_json(items) is Some <==> forall|i: int|
            0 <= i < items.len() ==> spec_to_json(#[trigger] items[i]) is Some,
        spec_items_to_json(items) matches Some(s) ==> s.len() == items.len() && forall|i: int|
            0 <= i < items.len() ==> s[i] == spec_to_json(#[trigger] items[i]).unwrap(),
    decreases items,
{
    if items.len() > 0 {
        lemma_items_to_json_character(items.drop_first());
        assert(forall|i: int|
            0 < i < items.len() ==> items.drop_first()[i - 1] == #[trigger] items[i]);
        if spec_to_json(items[0]) is Some && spec_items_to_json(items.drop_first()) is Some {
            let s = spec_items_to_json(items).unwrap();
            let rest = spec_items_to_json(items.drop_first()).unwrap();
            assert(s =~= seq![spec_to_json(items[0]).unwrap()] + rest);
        }
    }
}

/// Entrywise conversion of a map into an object: each key is
/// converted and stringified, each value converted; a failing key
/// or value, or a key with no string form, fails the map.
pub open spec fn spec_map_to_json(
    entries: Seq<(NativeValue, NativeValue)>,
    acc: Seq<(Seq<char>, JsonVal)>,
) -> Option<JsonVal>
    decreases entries,
{
    if entries.len() == 0 {
        Some(JsonVal::Object(acc))
    } else {
        match spec_to_json(entries[0].0) {
            None => None,
            Some(kj) => match spec_key_string(kj) {
                None => None,
                Some(ks) => match spec_to_json(entries[0].1) {
                    None => None,
                    Some(vj) => spec_map_to_json(
                        entries.drop_first(),
                        spec_obj_insert(acc, ks, vj),
                    ),
                },
            },
        }
    }
}

/// Law: the codec is the identity on values that are already JSON
/// shaped — a boolean always converts to exactly that JSON boolean,
/// null to JSON null, and text to the same JSON string.
pub proof fn lemma_codec_json_safe_identity(b: bool, s: String)
    ensures
        spec_to_json(NativeValue::Boolean(b)) == Some(JsonVal::Bool(b)),
        spec_to_json(NativeValue::Null) == Some(JsonVal::Null),
        spec_to_json(NativeValue::Text(s)) == Some(JsonVal::Text(s@)),
{
}

/// Law: conversion is total on every non-temporal scalar variant —
/// null, booleans, all integer widths, both floats, text, enums,
/// decimals and blobs always convert to a value, never to an error.
pub proof fn lemma_codec_scalars_total(v: NativeValue)
    requires
        v is Null || v is Boolean || v is TinyInt || v is SmallInt || v is Int || v is BigInt
            || v is HugeInt || v is UTinyInt || v is USmallInt || v is UInt || v is UBigInt
            || v is Float || v is Double || v is Decimal || v is Text || v is Enum || v is Blob
            || v is Interval,
    ensures
        spec_to_json(v) is Some,
{
}

fn conv_error(message: &str) -> (e: Error)
    ensures
        e is ValueConversion,
{
    Error::ValueConversion { message: String::from_str(message) }
}

/// Euclidean quotient of an `i64` by a small positive divisor; the
/// result always fits.
fn div_euclid_by(a: i64, b: i64) -> (q: i64)
    requires
        2 <= b <= 1_000_000_000,
    ensures
        q == a as int / b as int,
{
    proof {
        lemma_small_div_in_range(a as int, b as int);
    }
    match a.checked_div_euclid(b) {
        Some(q) => q,
        None => {
            proof {
                assert(false);
            }
            0
        },
    }
}

/// Euclidean remainder of an `i64` by a small positive divisor.
fn rem_euclid_by(a: i64, b: i64) -> (r: i64)
    requires
        2 <= b <= 1_000_000_000,
    ensures
        r == a as int % b as int,
        0 <= r < b,
{
    proof {
        vstd::arithmetic::div_mod::lemma_mod_bound(a as int, b as int);
    }
    match a.checked_rem_euclid(b) {
        Some(r) => r,
        None => {
            proof {
                assert(false);
            }
            0
        },
    }
}

/// The Euclidean quotient of an `i64`-range value by a divisor of
/// at least two stays strictly inside the `i64` range.
proof fn lemma_small_div_in_range(a: int, b: int)
    requires
        b >= 2,
        -0x8000_0000_0000_0000 <= a <= 0x8000_0000_0000_0000,
    ensures
        -0x8000_0000_0000_0000 < a / b < 0x7fff_ffff_ffff_ffff,
{
    vstd::arithmetic::div_mod::lemma_fundamental_div_mod(a, b);
    vstd::arithmetic::div_mod::lemma_mod_bound(a, b);
    let q = a / b;
    let r = a % b;
    assert(-0x8000_0000_0000_0000 < q < 0x7fff_ffff_ffff_ffff) by (nonlinear_arith)
        requires
            a == b * q + r,
            0 <= r < b,
            b >= 2,
            -0x8000_0000_0000_0000 <= a <= 0x8000_0000_0000_0000,
    ;
}

/// Truncating quotient of an `i64` by a small positive divisor; the
/// result always fits.
fn trunc_div_by(a: i64, b: i64) -> (q: i64)
    requires
        2 <= b <= 1_000_000_000,
    ensures
        q == spec_trunc_div(a as int, b as int),
{
    proof {
        lemma_small_div_in_range(a as int, b as int);
        lemma_small_div_in_range(-(a as int), b as int);
        vstd::arithmetic::div_mod::lemma_fundamental_div_mod(a as int, b as int);
        vstd::arithmetic::div_mod::lemma_fundamental_div_mod(-(a as int), b as int);
    }
    match a.checked_div(b) {
        Some(q) => q,
        None => {
            proof {
                assert(false);
            }
            0
        },
    }
}

/// A stored timestamp rendered to RFC 3339 text.
pub fn convert_timestamp(unit: TimeUnit, amount: i64) -> (r: Result<JsonValue, Error>)
    ensures
        r matches Ok(j) ==> spec_convert_timestamp(unit, amount as int) == Some(j@),
        r is Err <==> spec_convert_timestamp(unit, amount as int) is None,
        r matches Err(e) ==> e is ValueConversion,
{
    let secs: i64;
    let nsecs: u32;
    match unit {
        TimeUnit::Second => {
            secs = amount;
            nsecs = 0;
        },
        TimeUnit::Millisecond => {
            secs = div_euclid_by(amount, 1000);
            nsecs = (rem_euclid_by(amount, 1000) as u32) * 1_000_000;
        },
        TimeUnit::Microsecond => {
            secs = div_euclid_by(amount, 1_000_000);
            nsecs = (rem_euclid_by(amount, 1_000_000) as u32) * 1000;
        },
        TimeUnit::Nanosecond => {
            secs = div_euclid_by(amount, 1_000_000_000);
            nsecs = rem_euclid_by(amount, 1_000_000_000) as u32;
        },
    }
    assert(spec_timestamp_split(unit, amount as int) == (secs as int, nsecs as int));
    match fmt_timestamp(secs, nsecs) {
        Some(s) => Ok(JsonValue::Text(s)),
        None => Err(conv_error("Failed to convert timestamp")),
    }
}

/// A stored date (days from the epoch) rendered to ISO 8601 text.
pub fn convert_date32(days: i32) -> (r: Result<JsonValue, Error>)
    ensures
        r matches Ok(j) ==> spec_convert_date(days as int) == Some(j@),
        r is Err <==> spec_convert_date(days as int) is None,
        r matches Err(e) ==> e is ValueConversion,
{
    let d: i64 = (days as i64) + 719_163;
    if d < -2147483648 || d > 2147483647 {
        return Err(conv_error("Failed to convert Date32"));
    }
    match fmt_date(d as i32) {
        Some(s) => Ok(JsonValue::Text(s)),
        None => Err(conv_error("Failed to convert Date32")),
    }
}

/// A stored time of day rendered to ISO 8601 text.
pub fn convert_time64(unit: TimeUnit, amount: i64) -> (r: Result<JsonValue, Error>)
    ensures
        r matches Ok(j) ==> spec_convert_time(unit, amount as int) == Some(j@),
        r is Err <==> spec_convert_time(unit, amount as int) is None,
        r matches Err(e) ==> e is ValueConversion,
{
    let micros: i64 = match unit {
        TimeUnit::Second => match amount.checked_mul(1_000_000) {
            Some(m) => m,
            None => {
                return Err(conv_error("Failed to convert seconds"));
            },
        },
        TimeUnit::Millisecond => match amount.checked_mul(1000) {
            Some(m) => m,
            None => {
                return Err(conv_error("Failed to convert milliseconds"));
            },
        },
        TimeUnit::Microsecond => amount,
        TimeUnit::Nanosecond => trunc_div_by(amount, 1000),
    };
    if micros < 0 {
        return Err(conv_error("Failed to convert seconds"));
    }
    let um = micros as u64;
    let secs = um / 1_000_000;
    let nanos = (um % 1_000_000) * 1000;
    if secs > 0xffff_ffff {
        return Err(conv_error("Failed to convert seconds"));
    }
    match fmt_time(secs as u32, nanos as u32) {
        Some(s) => Ok(JsonValue::Text(s)),
        None => Err(conv_error("Failed to create a time of day")),
    }
}

pub proof fn lemma_obj_key_index_character(entries: Seq<(Seq<char>, JsonVal)>, k: Seq<char>)
    ensures
        -1 <= spec_obj_key_index(entries, k) < entries.len(),
        spec_obj_key_index(entries, k) >= 0 ==> entries[spec_obj_key_index(entries, k)].0 == k,
        forall|j: int| 0 <= j < spec_obj_key_index(entries, k) ==> (#[trigger] entries[j]).0 != k,
        spec_obj_key_index(entries, k) == -1 ==> forall|j: int|
            0 <= j < entries.len() ==> (#[trigger] entries[j]).0 != k,
    decreases entries.len(),
{
    if entries.len() > 0 && entries[0].0 != k {
        lemma_obj_key_index_character(entries.drop_first(), k);
        assert(forall|j: int|
            0 < j < entries.len() ==> #[trigger] entries[j] == entries.drop_first()[j - 1]);
    }
}

fn string_lit(s: &str) -> (r: String)
    ensures
        r@ == s@,
{
    String::from_str(s)
}

/// Writes one entry into an object under construction: replaces the
/// first entry with the same key, or appends.
fn obj_insert(entries: &mut Vec<(String, JsonValue)>, key: String, value: JsonValue)
    ensures
        jfields_view(final(entries)@) == spec_obj_insert(
            jfields_view(old(entries)@),
            key@,
            json_view(value),
        ),
{
    let ghost es = jfields_view(entries@);
    proof {
        lemma_jfields_view_index(entries@);
    }
    let n = entries.len();
    let mut i: usize = 0;
    while i < n
        invariant
            n == entries@.len(),
            entries@ == old(entries)@,
            es == jfields_view(entries@),
            es.len() == n,
            forall|j: int|
                0 <= j < n ==> #[trigger] es[j] == (entries@[j].0@, json_view(entries@[j].1)),
            0 <= i <= n,
            forall|j: int| 0 <= j < i ==> (#[trigger] es[j]).0 != key@,
        decreases n - i,
    {
        if crate::strutil::str_equal(entries[i].0.as_str(), key.as_str()) {
            proof {
                assert(es[i as int].0 == key@);
                assert(spec_obj_key_index(es, key@) == i) by {
                    lemma_obj_key_index_character(es, key@);
                    if spec_obj_key_index(es, key@) > i {
                        assert((es[i as int]).0 != key@);
                    }
                }
            }
            let ghost before = entries@;
            entries[i] = (key, value);
            proof {
                lemma_jfields_view_index(entries@);
                let after = jfields_view(entries@);
                let want = spec_obj_insert(es, key@, json_view(value));
                assert(want == es.update(i as int, (key@, json_view(value))));
                assert forall|j: int| 0 <= j < n implies after[j] == want[j] by {
                    if j != i {
                        assert(entries@[j] == before[j]);
                    }
                }
                assert(after =~= want);
            }
            return ;
        }
        i = i + 1;
    }
    proof {
        assert(spec_obj_key_index(es, key@) == -1) by {
            lemma_obj_key_index_character(es, key@);
            if spec_obj_key_index(es, key@) >= 0 {
                assert((es[spec_obj_key_index(es, key@)]).0 == key@);
            }
        }
    }
    entries.push((key, value));
    proof {
        lemma_jfields_view_index(entries@);
        let after = jfields_view(entries@);
        let want = spec_obj_insert(es, key@, json_view(value));
        assert(want == es.push((key@, json_view(value))));
        assert forall|j: int| 0 <= j < n + 1 implies after[j] == want[j] by {
            if j < n {
                assert(entries@[j] == old(entries)@[j]);
            } else {
                assert(entries@[j] == (key, value));
            }
        }
        assert(after =~= want);
    }
}

/// The object-key form of a converted value: strings as they are,
/// booleans, numbers and null through their textual form; an array
/// or object key is a conversion error.
pub fn key_json_to_string(j: &JsonValue) -> (r: Result<String, Error>)
    ensures
        r matches Ok(s) ==> spec_key_string(j@) == Some(s@),
        r is Err <==> spec_key_string(j@) is None,
        r matches Err(e) ==> e is ValueConversion,
{
    match j {
        JsonValue::Text(s) => Ok(s.clone()),
        JsonValue::Bool(b) => {
            if *b {
                Ok(string_lit("true"))
            } else {
                Ok(string_lit("false"))
            }
        },
        JsonValue::Number(n) => match n {
            JsonNumber::Int(i) => Ok(crate::strutil::i64_to_dec_string(*i)),
            JsonNumber::UInt(u) => {
                let s = crate::strutil::u64_to_dec_string(*u);
                assert(spec_idec_str(*u as int) == spec_udec_str(*u as nat));
                Ok(s)
            },
            JsonNumber::Float(s) => Ok(s.clone()),
        },
        JsonValue::Null => Ok(string_lit("null")),
        JsonValue::Array(_) => Err(conv_error("Map key must be convertible to string")),
        JsonValue::Object(_) => Err(conv_error("Map key must be convertible to string")),
    }
}

/// Converts one native value to JSON.
///
/// Total but for the stated exceptions: the conversion fails only
/// where a temporal component is numerically out of range or a map
/// key has no string form, and then with a `ValueConversion` error;
/// it never panics.
pub fn value_to_json(v: &NativeValue) -> (r: Result<JsonValue, Error>)
    ensures
        r matches Ok(j) ==> spec_to_json(*v) == Some(j@),
        r is Err <==> spec_to_json(*v) is None,
        r matches Err(e) ==> e is ValueConversion,
    decreases *v,
{
    match v {
        NativeValue::Null => Ok(JsonValue::Null),
        NativeValue::Boolean(b) => Ok(JsonValue::Bool(*b)),
        NativeValue::TinyInt(i) => Ok(JsonValue::Number(JsonNumber::Int(*i as i64))),
        NativeValue::SmallInt(i) => Ok(JsonValue::Number(JsonNumber::Int(*i as i64))),
        NativeValue::Int(i) => Ok(JsonValue::Number(JsonNumber::Int(*i as i64))),
        NativeValue::BigInt(i) => Ok(JsonValue::Number(JsonNumber::Int(*i))),
        NativeValue::HugeInt(i) => Ok(JsonValue::Text(crate::strutil::i128_to_dec_string(*i))),
        NativeValue::UTinyInt(u) => Ok(JsonValue::Number(JsonNumber::UInt(*u as u64))),
        NativeValue::USmallInt(u) => Ok(JsonValue::Number(JsonNumber::UInt(*u as u64))),
        NativeValue::UInt(u) => Ok(JsonValue::Number(JsonNumber::UInt(*u as u64))),
        NativeValue::UBigInt(u) => Ok(JsonValue::Number(JsonNumber::UInt(*u))),
        NativeValue::Float(f) => match f {
            FloatValue::Finite(s) => Ok(JsonValue::Number(JsonNumber::Float(s.clone()))),
            FloatValue::NonFinite => Ok(JsonValue::Null),
        },
        NativeValue::Double(f) => match f {
            FloatValue::Finite(s) => Ok(JsonValue::Number(JsonNumber::Float(s.clone()))),
            FloatValue::NonFinite => Ok(JsonValue::Null),
        },
        NativeValue::Decimal(s) => Ok(JsonValue::Text(s.clone())),
        NativeValue::Timestamp(unit, amount) => convert_timestamp(*unit, *amount),
        NativeValue::Text(s) => Ok(JsonValue::Text(s.clone())),
        NativeValue::Enum(s) => Ok(JsonValue::Text(s.clone())),
        NativeValue::Date32(days) => convert_date32(*days),
        NativeValue::Time64(unit, amount) => convert_time64(*unit, *amount),
        NativeValue::Blob(bytes) => {
            let mut out: Vec<JsonValue> = Vec::new();
            let n = bytes.len();
            let mut i: usize = 0;
            while i < n
                invariant
                    n == bytes@.len(),
                    0 <= i <= n,
                    out@.len() == i,
                    forall|j: int|
                        0 <= j < i ==> #[trigger] out@[j] == JsonValue::Number(
                            JsonNumber::UInt(bytes@[j] as u64),
                        ),
                decreases n - i,
            {
                out.push(JsonValue::Number(JsonNumber::UInt(bytes[i] as u64)));
                i = i + 1;
            }
            proof {
                lemma_jsons_view_index(out@);
                let want = bytes@.map_values(|b: u8| JsonVal::Int(b as int));
                assert forall|j: int| 0 <= j < n implies jsons_view(out@)[j] == want[j] by {
                    assert(out@[j] == JsonValue::Number(JsonNumber::UInt(bytes@[j] as u64)));
                    assert(jsons_view(out@)[j] == json_view(out@[j]));
                    assert(want[j] == JsonVal::Int(bytes@[j] as int));
                }
                assert(jsons_view(out@) =~= want);
            }
            Ok(JsonValue::Array(out))
        },
        NativeValue::Interval { months, days, nanos } => {
            let mut fields: Vec<(String, JsonValue)> = Vec::new();
            fields.push((string_lit("months"), JsonValue::Number(JsonNumber::Int(*months as i64))));
            fields.push((string_lit("days"), JsonValue::Number(JsonNumber::Int(*days as i64))));
            fields.push((string_lit("nanos"), JsonValue::Number(JsonNumber::Int(*nanos))));
            proof {
                lemma_jfields_view_index(fields@);
                let want = seq![
                    ("months"@, JsonVal::Int(*months as int)),
                    ("days"@, JsonVal::Int(*days as int)),
                    ("nanos"@, JsonVal::Int(*nanos as int)),
                ];
                assert(fields@.len() == 3);
                assert(jfields_view(fields@)[0] == (fields@[0].0@, json_view(fields@[0].1)));
                assert(jfields_view(fields@)[1] == (fields@[1].0@, json_view(fields@[1].1)));
                assert(jfields_view(fields@)[2] == (fields@[2].0@, json_view(fields@[2].1)));
                assert(jfields_view(fields@) =~= want);
            }
            Ok(JsonValue::Object(fields))
        },
        NativeValue::List(items) => convert_items(items),
        NativeValue::Array(items) => convert_items(items),
        NativeValue::Struct(fields) => convert_struct_fields(fields),
        NativeValue::Mapping(entries) => convert_map_entries(entries),
        NativeValue::Union(inner) => value_to_json(&*inner),
    }
}

/// Converts the elements of a list or fixed-size array.
fn convert_items(items: &Vec<NativeValue>) -> (r: Result<JsonValue, Error>)
    ensures
        r matches Ok(j) ==> {
            &&& spec_items_to_json(items@) matches Some(s)
            &&& j@ == JsonVal::Array(s)
        },
        r is Err <==> spec_items_to_json(items@) is None,
        r matches Err(e) ==> e is ValueConversion,
    decreases items@,
{
    let mut out: Vec<JsonValue> = Vec::new();
    let n = items.len();
    let mut i: usize = 0;
    while i < n
        invariant
            n == items@.len(),
            0 <= i <= n,
            out@.len() == i,
            forall|j: int| 0 <= j < i ==> spec_to_json(#[trigger] items@[j]) is Some,
            forall|j: int|
                0 <= j < i ==> json_view(#[trigger] out@[j]) == spec_to_json(items@[j]).unwrap(),
        decreases n - i,
    {
        let jv = match value_to_json(&items[i]) {
            Ok(jv) => jv,
            Err(e) => {
                proof {
                    lemma_items_to_json_character(items@);
                }
                return Err(e);
            },
        };
        out.push(jv);
        i = i + 1;
    }
    proof {
        lemma_items_to_json_character(items@);
        lemma_jsons_view_index(out@);
        let s = spec_items_to_json(items@).unwrap();
        assert forall|j: int| 0 <= j < n implies jsons_view(out@)[j] == s[j] by {
            assert(jsons_view(out@)[j] == json_view(out@[j]));
        }
        assert(jsons_view(out@) =~= s);
    }
    Ok(JsonValue::Array(out))
}

/// Converts the fields of a struct into an object, in field order.
fn convert_struct_fields(fields: &Vec<(String, NativeValue)>) -> (r: Result<JsonValue, Error>)
    ensures
        r matches Ok(j) ==> spec_struct_to_json(fields@, Seq::empty()) == Some(j@),
        r is Err <==> spec_struct_to_json(fields@, Seq::empty()) is None,
        r matches Err(e) ==> e is ValueConversion,
    decreases fields@,
{
    let mut acc: Vec<(String, JsonValue)> = Vec::new();
    let ghost fs = fields@;
    let n = fields.len();
    let mut i: usize = 0;
    proof {
        assert(fs.skip(0) =~= fs);
        assert(jfields_view(acc@) =~= Seq::<(Seq<char>, JsonVal)>::empty());
    }
    while i < n
        invariant
            n == fields@.len(),
            fs == fields@,
            0 <= i <= n,
            spec_struct_to_json(fs, Seq::empty()) == spec_struct_to_json(
                fs.skip(i as int),
                jfields_view(acc@),
            ),
        decreases n - i,
    {
        let ghost rem = fs.skip(i as int);
        let ghost accv = jfields_view(acc@);
        proof {
            assert(rem[0] == fs[i as int]);
            assert(rem.drop_first() =~= fs.skip(i + 1));
            assert(decreases_to!(fs => fs[i as int]));
            assert(decreases_to!(fs[i as int] => fs[i as int].1));
        }
        let jv = match value_to_json(&fields[i].1) {
            Ok(jv) => jv,
            Err(e) => {
                proof {
                    assert(spec_to_json(rem[0].1) is None);
                    assert(spec_struct_to_json(rem, accv) is None);
                }
                return Err(e);
            },
        };
        let key = fields[i].0.clone();
        obj_insert(&mut acc, key, jv);
        proof {
            assert(key@ == rem[0].0@);
            assert(json_view(jv) == spec_to_json(rem[0].1).unwrap());
            assert(jfields_view(acc@) == spec_obj_insert(
                accv,
                rem[0].0@,
                spec_to_json(rem[0].1).unwrap(),
            ));
            assert(spec_struct_to_json(rem, accv) == spec_struct_to_json(
                fs.skip(i + 1),
                jfields_view(acc@),
            ));
        }
        i = i + 1;
    }
    proof {
        assert(fs.skip(n as int) =~= Seq::<(String, NativeValue)>::empty());
    }
    Ok(JsonValue::Object(acc))
}

/// Converts the entries of a map into an object: keys stringified,
/// values converted, in entry order.
fn convert_map_entries(entries: &Vec<(NativeValue, NativeValue)>) -> (r: Result<JsonValue, Error>)
    ensures
        r matches Ok(j) ==> spec_map_to_json(entries@, Seq::empty()) == Some(j@),
        r is Err <==> spec_map_to_json(entries@, Seq::empty()) is None,
        r matches Err(e) ==> e is ValueConversion,
    decreases entries@,
{
    let mut acc: Vec<(String, JsonValue)> = Vec::new();
    let ghost es = entries@;
    let n = entries.len();
    let mut i: usize = 0;
    proof {
        assert(es.skip(0) =~= es);
        assert(jfields_view(acc@) =~= Seq::<(Seq<char>, JsonVal)>::empty());
    }
    while i < n
        invariant
            n == entries@.len(),
            es == entries@,
            0 <= i <= n,
            spec_map_to_json(es, Seq::empty()) == spec_map_to_json(
                es.skip(i as int),
                jfields_view(acc@),
            ),
        decreases n - i,
    {
        let ghost rem = es.skip(i as int);
        let ghost accv = jfields_view(acc@);
        proof {
            assert(rem[0] == es[i as int]);
            assert(rem.drop_first() =~= es.skip(i + 1));
            assert(decreases_to!(es => es[i as int]));
            assert(decreases_to!(es[i as int] => es[i as int].0));
            assert(decreases_to!(es[i as int] => es[i as int].1));
        }
        let kj = match value_to_json(&entries[i].0) {
            Ok(kj) => kj,
            Err(e) => {
                proof {
                    assert(spec_to_json(rem[0].0) is None);
                    assert(spec_map_to_json(rem, accv) is None);
                }
                return Err(e);
            },
        };
        let ks = match key_json_to_string(&kj) {
            Ok(ks) => ks,
            Err(e) => {
                proof {
                    assert(spec_key_string(kj@) is None);
                    assert(spec_map_to_json(rem, accv) is None);
                }
                return Err(e);
            },
        };
        let vj = match value_to_json(&entries[i].1) {
            Ok(vj) => vj,
            Err(e) => {
                proof {
                    assert(spec_to_json(rem[0].1) is None);
                    assert(spec_map_to_json(rem, accv) is None);
                }
                return Err(e);
            },
        };
        obj_insert(&mut acc, ks, vj);
        proof {
            assert(spec_key_string(spec_to_json(rem[0].0).unwrap()) == Some(ks@));
            assert(json_view(vj) == spec_to_json(rem[0].1).unwrap());
            assert(jfields_view(acc@) == spec_obj_insert(
                accv,
                ks@,
                spec_to_json(rem[0].1).unwrap(),
            ));
            assert(spec_map_to_json(rem, accv) == spec_map_to_json(
                es.skip(i + 1),
                jfields_view(acc@),
            ));
        }
        i = i + 1;
    }
    proof {
        assert(es.skip(n as int) =~= Seq::<(NativeValue, NativeValue)>::empty());
    }
    Ok(JsonValue::Object(acc))
}

} // verus!
