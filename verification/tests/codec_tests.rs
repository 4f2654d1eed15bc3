use karna_engine::codec::FloatValue;
use karna_engine::codec::JsonNumber;
use karna_engine::codec::JsonValue;
use karna_engine::codec::NativeValue;
use karna_engine::codec::TimeUnit;
use karna_engine::codec::value_to_json;
use karna_engine::error::Error;

fn text(s: &str) -> JsonValue {
    JsonValue::Text(String::from(s))
}

#[test]
fn null_and_booleans() {
    assert_eq!(value_to_json(&NativeValue::Null).unwrap(), JsonValue::Null);
    assert_eq!(
        value_to_json(&NativeValue::Boolean(true)).unwrap(),
        JsonValue::Bool(true)
    );
    assert_eq!(
        value_to_json(&NativeValue::Boolean(false)).unwrap(),
        JsonValue::Bool(false)
    );
}

#[test]
fn every_integer_width_is_a_number() {
    let cases = [
        (NativeValue::TinyInt(-8), JsonNumber::Int(-8)),
        (NativeValue::SmallInt(-16), JsonNumber::Int(-16)),
        (NativeValue::Int(-32), JsonNumber::Int(-32)),
        (NativeValue::BigInt(i64::MIN), JsonNumber::Int(i64::MIN)),
        (NativeValue::UTinyInt(255), JsonNumber::UInt(255)),
        (NativeValue::USmallInt(65535), JsonNumber::UInt(65535)),
        (NativeValue::UInt(4294967295), JsonNumber::UInt(4294967295)),
        (NativeValue::UBigInt(u64::MAX), JsonNumber::UInt(u64::MAX)),
    ];
    for (native, number) in cases {
        assert_eq!(value_to_json(&native).unwrap(), JsonValue::Number(number));
    }
}

#[test]
fn wide_numbers_become_strings() {
    assert_eq!(
        value_to_json(&NativeValue::HugeInt(i128::MAX)).unwrap(),
        text("170141183460469231731687303715884105727")
    );
    assert_eq!(
        value_to_json(&NativeValue::HugeInt(i128::MIN)).unwrap(),
        text("-170141183460469231731687303715884105728")
    );
    assert_eq!(
        value_to_json(&NativeValue::Decimal(String::from("12.3400"))).unwrap(),
        text("12.3400")
    );
}

#[test]
fn floats_are_numbers_and_nonfinite_floats_are_null() {
    assert_eq!(
        value_to_json(&NativeValue::Float(FloatValue::Finite(String::from("1.5")))).unwrap(),
        JsonValue::Number(JsonNumber::Float(String::from("1.5")))
    );
    assert_eq!(
        value_to_json(&NativeValue::Double(FloatValue::NonFinite)).unwrap(),
        JsonValue::Null
    );
}

#[test]
fn text_and_enums_are_strings() {
    assert_eq!(
        value_to_json(&NativeValue::Text(String::from("hello"))).unwrap(),
        text("hello")
    );
    assert_eq!(
        value_to_json(&NativeValue::Enum(String::from("red"))).unwrap(),
        text("red")
    );
}

#[test]
fn blobs_are_arrays_of_byte_values() {
    let blob = NativeValue::Blob(vec![0, 1, 255]);
    assert_eq!(
        value_to_json(&blob).unwrap(),
        JsonValue::Array(vec![
            JsonValue::Number(JsonNumber::UInt(0)),
            JsonValue::Number(JsonNumber::UInt(1)),
            JsonValue::Number(JsonNumber::UInt(255)),
        ])
    );
}

#[test]
fn timestamps_render_to_rfc3339() {
    assert_eq!(
        value_to_json(&NativeValue::Timestamp(TimeUnit::Second, 0)).unwrap(),
        text("1970-01-01T00:00:00+00:00")
    );
    assert_eq!(
        value_to_json(&NativeValue::Timestamp(TimeUnit::Millisecond, 1500)).unwrap(),
        text("1970-01-01T00:00:01.500+00:00")
    );
    assert_eq!(
        value_to_json(&NativeValue::Timestamp(TimeUnit::Microsecond, -1)).unwrap(),
        text("1969-12-31T23:59:59.999999+00:00")
    );
    assert_eq!(
        value_to_json(&NativeValue::Timestamp(TimeUnit::Nanosecond, 1)).unwrap(),
        text("1970-01-01T00:00:00.000000001+00:00")
    );
}

#[test]
fn out_of_range_timestamps_fail() {
    match value_to_json(&NativeValue::Timestamp(TimeUnit::Second, i64::MAX)) {
        Err(Error::ValueConversion { .. }) => {}
        other => panic!("expected a conversion error, got {:?}", other),
    }
}

#[test]
fn dates_render_to_iso8601() {
    assert_eq!(
        value_to_json(&NativeValue::Date32(0)).unwrap(),
        text("1970-01-01")
    );
    assert_eq!(
        value_to_json(&NativeValue::Date32(1)).unwrap(),
        text("1970-01-02")
    );
    assert_eq!(
        value_to_json(&NativeValue::Date32(-719162)).unwrap(),
        text("0001-01-01")
    );
    match value_to_json(&NativeValue::Date32(i32::MAX)) {
        Err(Error::ValueConversion { .. }) => {}
        other => panic!("expected a conversion error, got {:?}", other),
    }
}

#[test]
fn times_render_to_iso8601() {
    assert_eq!(
        value_to_json(&NativeValue::Time64(TimeUnit::Second, 3661)).unwrap(),
        text("01:01:01")
    );
    assert_eq!(
        value_to_json(&NativeValue::Time64(TimeUnit::Microsecond, 1_500_000)).unwrap(),
        text("00:00:01.500")
    );
    assert_eq!(
        value_to_json(&NativeValue::Time64(TimeUnit::Nanosecond, 1500)).unwrap(),
        text("00:00:00.000001")
    );
}

#[test]
fn out_of_range_times_fail() {
    for bad in [
        NativeValue::Time64(TimeUnit::Second, 86_400),
        NativeValue::Time64(TimeUnit::Second, -1),
        NativeValue::Time64(TimeUnit::Second, i64::MAX),
        NativeValue::Time64(TimeUnit::Microsecond, -5),
    ] {
        match value_to_json(&bad) {
            Err(Error::ValueConversion { .. }) => {}
            other => panic!("expected a conversion error, got {:?}", other),
        }
    }
}

#[test]
fn intervals_are_objects() {
    let interval = NativeValue::Interval { months: 1, days: -2, nanos: 3 };
    assert_eq!(
        value_to_json(&interval).unwrap(),
        JsonValue::Object(vec![
            (String::from("months"), JsonValue::Number(JsonNumber::Int(1))),
            (String::from("days"), JsonValue::Number(JsonNumber::Int(-2))),
            (String::from("nanos"), JsonValue::Number(JsonNumber::Int(3))),
        ])
    );
}

#[test]
fn lists_and_arrays_convert_elementwise() {
    let list = NativeValue::List(vec![
        NativeValue::Boolean(true),
        NativeValue::Null,
        NativeValue::TinyInt(7),
    ]);
    assert_eq!(
        value_to_json(&list).unwrap(),
        JsonValue::Array(vec![
            JsonValue::Bool(true),
            JsonValue::Null,
            JsonValue::Number(JsonNumber::Int(7)),
        ])
    );

    let arr = NativeValue::Array(vec![NativeValue::Int(1), NativeValue::Int(2)]);
    assert_eq!(
        value_to_json(&arr).unwrap(),
        JsonValue::Array(vec![
            JsonValue::Number(JsonNumber::Int(1)),
            JsonValue::Number(JsonNumber::Int(2)),
        ])
    );

    let nested_bad = NativeValue::List(vec![NativeValue::Time64(TimeUnit::Second, -1)]);
    assert!(matches!(
        value_to_json(&nested_bad),
        Err(Error::ValueConversion { .. })
    ));
}

#[test]
fn structs_preserve_field_order() {
    let value = NativeValue::Struct(vec![
        (String::from("b"), NativeValue::Int(2)),
        (String::from("a"), NativeValue::Int(1)),
    ]);
    assert_eq!(
        value_to_json(&value).unwrap(),
        JsonValue::Object(vec![
            (String::from("b"), JsonValue::Number(JsonNumber::Int(2))),
            (String::from("a"), JsonValue::Number(JsonNumber::Int(1))),
        ])
    );
}

#[test]
fn duplicate_struct_fields_replace_in_place() {
    let value = NativeValue::Struct(vec![
        (String::from("a"), NativeValue::Int(1)),
        (String::from("b"), NativeValue::Int(2)),
        (String::from("a"), NativeValue::Int(3)),
    ]);
    assert_eq!(
        value_to_json(&value).unwrap(),
        JsonValue::Object(vec![
            (String::from("a"), JsonValue::Number(JsonNumber::Int(3))),
            (String::from("b"), JsonValue::Number(JsonNumber::Int(2))),
        ])
    );
}

#[test]
fn map_keys_are_stringified() {
    let value = NativeValue::Mapping(vec![
        (NativeValue::Text(String::from("k")), NativeValue::Int(1)),
        (NativeValue::Boolean(true), NativeValue::Int(2)),
        (NativeValue::TinyInt(-3), NativeValue::Int(3)),
        (NativeValue::Null, NativeValue::Int(4)),
        (NativeValue::UBigInt(9), NativeValue::Int(5)),
    ]);
    assert_eq!(
        value_to_json(&value).unwrap(),
        JsonValue::Object(vec![
            (String::from("k"), JsonValue::Number(JsonNumber::Int(1))),
            (String::from("true"), JsonValue::Number(JsonNumber::Int(2))),
            (String::from("-3"), JsonValue::Number(JsonNumber::Int(3))),
            (String::from("null"), JsonValue::Number(JsonNumber::Int(4))),
            (String::from("9"), JsonValue::Number(JsonNumber::Int(5))),
        ])
    );
}

#[test]
fn unstringifiable_map_keys_fail() {
    let value = NativeValue::Mapping(vec![(
        NativeValue::List(vec![NativeValue::Int(1)]),
        NativeValue::Int(1),
    )]);
    assert!(matches!(
        value_to_json(&value),
        Err(Error::ValueConversion { .. })
    ));
}

#[test]
fn unions_convert_their_inner_value() {
    let value = NativeValue::Union(Box::new(NativeValue::Text(String::from("inner"))));
    assert_eq!(value_to_json(&value).unwrap(), text("inner"));

    let nested = NativeValue::Union(Box::new(NativeValue::Union(Box::new(
        NativeValue::Boolean(true),
    ))));
    assert_eq!(value_to_json(&nested).unwrap(), JsonValue::Bool(true));
}
