use chaos::data::{process_data, DataRequest, DataResponse, DataValue};

#[test]
fn empty_array() {
    let request = DataRequest { data: vec![] };
    let response = process_data(&request);
    assert_eq!(response, DataResponse { string_len: 0, int_sum: 0 });
}

#[test]
fn mixed_values() {
    let request = DataRequest {
        data: vec![
            DataValue::Str("ab".to_string()),
            DataValue::Int(3),
            DataValue::Str("c".to_string()),
            DataValue::Int(4),
            DataValue::Other, // a boolean
            DataValue::Other, // a null
        ],
    };
    let response = process_data(&request);
    assert_eq!(response, DataResponse { string_len: 3, int_sum: 7 });
}

#[test]
fn unicode_scalar_values_not_bytes() {
    // "h\u{e9}llo" has five Unicode scalar values but six UTF-8 bytes.
    let request = DataRequest {
        data: vec![
            DataValue::Str("h\u{e9}llo".to_string()),
            DataValue::Int(-5),
            DataValue::Int(5),
        ],
    };
    let response = process_data(&request);
    assert_eq!(response, DataResponse { string_len: 5, int_sum: 0 });
}

#[test]
fn no_string_elements_zero_count() {
    let request = DataRequest {
        data: vec![DataValue::Int(1), DataValue::Int(2), DataValue::Other],
    };
    let response = process_data(&request);
    assert_eq!(response, DataResponse { string_len: 0, int_sum: 3 });
}

#[test]
fn no_integer_elements_zero_sum() {
    let request = DataRequest {
        data: vec![DataValue::Str("a".to_string()), DataValue::Other],
    };
    let response = process_data(&request);
    assert_eq!(response, DataResponse { string_len: 1, int_sum: 0 });
}

#[test]
fn integral_valued_float_is_skipped() {
    // A number written as 3.0 is classified by its type tag as Other and
    // must not reach the integer sum.
    let request = DataRequest {
        data: vec![DataValue::Other, DataValue::Int(2)],
    };
    let response = process_data(&request);
    assert_eq!(response, DataResponse { string_len: 0, int_sum: 2 });
}

#[test]
fn order_does_not_matter() {
    let forward = DataRequest {
        data: vec![
            DataValue::Int(10),
            DataValue::Str("xy".to_string()),
            DataValue::Other,
            DataValue::Int(-4),
        ],
    };
    let backward = DataRequest {
        data: vec![
            DataValue::Int(-4),
            DataValue::Other,
            DataValue::Str("xy".to_string()),
            DataValue::Int(10),
        ],
    };
    assert_eq!(process_data(&forward), process_data(&backward));
}

#[test]
fn sum_wraps_at_the_i64_boundary() {
    // The summing policy for totals that leave the i64 range is wrapping
    // (two's-complement) arithmetic.
    let request = DataRequest {
        data: vec![DataValue::Int(i64::MAX), DataValue::Int(1)],
    };
    let response = process_data(&request);
    assert_eq!(response, DataResponse { string_len: 0, int_sum: i64::MIN });
}

#[test]
fn negative_sum() {
    let request = DataRequest {
        data: vec![DataValue::Int(-5), DataValue::Int(-7)],
    };
    let response = process_data(&request);
    assert_eq!(response, DataResponse { string_len: 0, int_sum: -12 });
}

#[test]
fn four_byte_scalar_counts_once() {
    // One emoji: four UTF-8 bytes, one Unicode scalar value.
    let request = DataRequest {
        data: vec![DataValue::Str("\u{1f600}".to_string())],
    };
    let response = process_data(&request);
    assert_eq!(response, DataResponse { string_len: 1, int_sum: 0 });
}

#[test]
fn numeric_looking_string_counts_as_string() {
    // "42" is a string element: two characters, nothing added to the sum.
    let request = DataRequest {
        data: vec![DataValue::Str("42".to_string())],
    };
    let response = process_data(&request);
    assert_eq!(response, DataResponse { string_len: 2, int_sum: 0 });
}

#[test]
fn empty_string_counts_zero() {
    let request = DataRequest {
        data: vec![DataValue::Str(String::new()), DataValue::Int(9)],
    };
    let response = process_data(&request);
    assert_eq!(response, DataResponse { string_len: 0, int_sum: 9 });
}
