use std::sync::Arc;

use columnar_take::array::{
    equal, Array, BooleanArray, DictionaryArray, PrimitiveArray, VarBinaryArray,
};
use columnar_take::bitmap::Bitmap;
use columnar_take::datatypes::DataType;
use columnar_take::error::Error;
use columnar_take::take::{combine_validity, maybe_usize, take};

fn prim_options(data_type: DataType, opts: &[Option<i128>]) -> PrimitiveArray {
    PrimitiveArray::from_options(data_type, opts.to_vec())
}

fn prim_values(data_type: DataType, values: &[i128]) -> PrimitiveArray {
    PrimitiveArray::from_values(data_type, values.to_vec())
}

fn utf8_options(opts: &[Option<&str>]) -> VarBinaryArray {
    let rows: Vec<Option<Vec<u8>>> = opts
        .iter()
        .map(|o| o.map(|s| s.as_bytes().to_vec()))
        .collect();
    VarBinaryArray::from_options(DataType::Utf8, rows)
}

fn test_take_primitive(
    data: &[Option<i128>],
    indices: &PrimitiveArray,
    expected_data: &[Option<i128>],
    data_type: DataType,
) {
    let input = Array::FixedWidth(prim_options(data_type, data));
    let expected = Array::FixedWidth(prim_options(data_type, expected_data));
    let output = take(&input, indices).unwrap();
    assert!(equal(&expected, &output));
}

#[test]
fn test_take_primitive_non_null_indices() {
    let indices = prim_values(DataType::Int32, &[0, 5, 3, 1, 4, 2]);
    test_take_primitive(
        &[None, Some(3), Some(5), Some(2), Some(3), None],
        &indices,
        &[None, None, Some(2), Some(3), Some(3), Some(5)],
        DataType::Int8,
    );
}

#[test]
fn test_take_primitive_non_null_values() {
    let indices = prim_options(
        DataType::Int32,
        &[Some(3), None, Some(1), Some(3), Some(2)],
    );
    test_take_primitive(
        &[Some(0), Some(1), Some(2), Some(3), Some(4)],
        &indices,
        &[Some(3), None, Some(1), Some(3), Some(2)],
        DataType::Int8,
    );
}

fn test_take_utf8(
    data: &[Option<&str>],
    indices: &PrimitiveArray,
    expected_data: &[Option<&str>],
) {
    let input = Array::VariableLength(utf8_options(data));
    let expected = Array::VariableLength(utf8_options(expected_data));
    let output = take(&input, indices).unwrap();
    assert!(equal(&expected, &output));
}

#[test]
fn test_utf8_nulls_nulls() {
    let index = prim_options(
        DataType::Int32,
        &[Some(3), None, Some(1), Some(3), Some(4)],
    );
    test_take_utf8(
        &[Some("one"), None, Some("three"), Some("four"), Some("five")],
        &index,
        &[Some("four"), None, None, Some("four"), Some("five")],
    );
}

fn test_take_boolean_arrays(
    data: &[Option<bool>],
    indices: &PrimitiveArray,
    expected_data: &[Option<bool>],
) {
    let input = Array::BitPacked(BooleanArray::from_options(data.to_vec()));
    let expected = Array::BitPacked(BooleanArray::from_options(expected_data.to_vec()));
    let output = take(&input, indices).unwrap();
    assert!(equal(&expected, &output));
}

#[test]
fn test_take_primitive_bool() {
    let index = prim_options(
        DataType::Int32,
        &[Some(3), None, Some(1), Some(3), Some(2)],
    );
    test_take_boolean_arrays(
        &[Some(false), None, Some(true), Some(false), None],
        &index,
        &[Some(false), None, None, Some(false), Some(true)],
    );
}

#[test]
fn test_output_length_equals_index_length() {
    let input = Array::FixedWidth(prim_options(DataType::Int16, &[Some(7), None, Some(9)]));
    let indices = prim_values(DataType::Int64, &[2, 2, 0, 1, 2, 0, 0]);
    let output = take(&input, &indices).unwrap();
    assert_eq!(output.len(), 7);
    assert_eq!(output.data_type(), DataType::Int16);

    let empty = prim_values(DataType::Int32, &[]);
    let output = take(&input, &empty).unwrap();
    assert_eq!(output.len(), 0);
}

#[test]
fn test_identity_indices_reproduce_source() {
    let data: &[Option<i128>] = &[Some(4), None, Some(-2), Some(100), None];
    let input = Array::FixedWidth(prim_options(DataType::Int8, data));
    let indices = prim_values(DataType::Int32, &[0, 1, 2, 3, 4]);
    let output = take(&input, &indices).unwrap();
    assert!(equal(&input, &output));

    let text = utf8_options(&[Some("ab"), None, Some(""), Some("xyz")]);
    let input = Array::VariableLength(text);
    let indices = prim_values(DataType::Int32, &[0, 1, 2, 3]);
    let output = take(&input, &indices).unwrap();
    assert!(equal(&input, &output));
}

#[test]
fn test_dictionary_values_pass_through() {
    let pool = Array::VariableLength(utf8_options(&[Some("red"), Some("green"), None]));
    let keys = prim_options(DataType::Int8, &[Some(0), None, Some(1), Some(2), Some(1)]);
    let dict = DictionaryArray::new(keys, pool);
    let shared = Arc::clone(&dict.values);
    let input = Array::Dictionary(dict);

    let indices = prim_options(DataType::Int32, &[Some(4), None, Some(0), Some(3)]);
    let output = take(&input, &indices).unwrap();
    assert_eq!(output.data_type(), input.data_type());
    let out_dict = match &output {
        Array::Dictionary(d) => d,
        _ => panic!("dictionary in, dictionary out"),
    };
    // The values pool is the very same allocation, not a copy.
    assert!(Arc::ptr_eq(&shared, &out_dict.values));
    // Keys are gathered like any fixed-width column.
    let expected_keys = prim_options(DataType::Int8, &[Some(1), None, Some(0), Some(2)]);
    assert!(equal(
        &Array::FixedWidth(expected_keys),
        &Array::FixedWidth(out_dict.keys.clone()),
    ));
}

#[test]
fn test_variable_length_byte_accounting() {
    let input = utf8_options(&[Some("one"), None, Some("three"), Some("four"), Some("five")]);
    let indices = prim_options(
        DataType::Int32,
        &[Some(3), None, Some(1), Some(3), Some(4)],
    );
    let output = match take(&Array::VariableLength(input), &indices).unwrap() {
        Array::VariableLength(v) => v,
        _ => panic!("variable-length in, variable-length out"),
    };
    // Final offset: "four" + nothing + nothing + "four" + "five" = 12 bytes.
    assert_eq!(output.offsets, vec![0, 4, 4, 4, 8, 12]);
    assert_eq!(output.values, b"fourfourfive".to_vec());
}

#[test]
fn test_negative_index_reports_overflow() {
    let input = Array::FixedWidth(prim_values(DataType::UInt8, &[1, 2, 3]));
    let indices = prim_values(DataType::Int32, &[1, -1, 0]);
    assert_eq!(
        take(&input, &indices).unwrap_err(),
        Error::DictionaryKeyOverflow
    );

    let text = Array::VariableLength(utf8_options(&[Some("a"), Some("b")]));
    assert_eq!(
        take(&text, &indices).unwrap_err(),
        Error::DictionaryKeyOverflow
    );
}

#[test]
fn test_negative_index_under_null_slot_is_ignored() {
    // A null index row may carry any stale payload, even one that could
    // never address the source; it must not be read, let alone reported.
    let input = Array::FixedWidth(prim_values(DataType::UInt8, &[1, 2, 3]));
    let indices = PrimitiveArray {
        data_type: DataType::Int32,
        values: vec![2, -999, 0],
        validity: Some(Bitmap {
            bits: vec![true, false, true],
        }),
    };
    let output = take(&input, &indices).unwrap();
    let expected = Array::FixedWidth(prim_options(
        DataType::UInt8,
        &[Some(3), None, Some(1)],
    ));
    assert!(equal(&expected, &output));
}

#[test]
fn test_accumulated_offset_overflow_reported() {
    // One megabyte-long row taken 2200 times overflows 32-bit offsets.
    let row = vec![0u8; 1 << 20];
    let input = VarBinaryArray::from_options(DataType::Binary, vec![Some(row)]);
    let indices = prim_values(DataType::Int64, &vec![0i128; 2200]);
    assert_eq!(
        take(&Array::VariableLength(input), &indices).unwrap_err(),
        Error::Overflow
    );
}

#[test]
fn test_large_offsets_repeated_row() {
    // A 64-bit-offset column gathered through one row many times.
    let row = vec![7u8; 1 << 10];
    let input = VarBinaryArray::from_options(DataType::LargeBinary, vec![Some(row)]);
    let indices = prim_values(DataType::Int64, &vec![0i128; 2200]);
    let output = match take(&Array::VariableLength(input), &indices).unwrap() {
        Array::VariableLength(v) => v,
        _ => panic!("variable-length in, variable-length out"),
    };
    assert_eq!(output.offsets[2200], 2200 * (1 << 10));
    assert!(output.values.iter().all(|b| *b == 7));
}

#[test]
fn test_unsupported_type_reported() {
    let input = Array::FixedWidth(prim_values(DataType::Float16, &[0, 1, 2]));
    let indices = prim_values(DataType::Int32, &[0]);
    assert_eq!(take(&input, &indices).unwrap_err(), Error::NotYetImplemented);
}

#[test]
fn test_validity_bitmap_omitted_only_when_neither_input_has_one() {
    let no_null_source = Array::FixedWidth(prim_values(DataType::Int32, &[5, 6, 7]));
    let no_null_indices = prim_values(DataType::Int32, &[2, 0]);
    let null_indices = prim_options(DataType::Int32, &[Some(2), None]);

    match take(&no_null_source, &no_null_indices).unwrap() {
        Array::FixedWidth(p) => assert!(p.validity.is_none()),
        _ => panic!("fixed-width in, fixed-width out"),
    }
    match take(&no_null_source, &null_indices).unwrap() {
        Array::FixedWidth(p) => assert!(p.validity.is_some()),
        _ => panic!("fixed-width in, fixed-width out"),
    }
}

#[test]
fn test_null_rule_combines_both_sources() {
    assert!(combine_validity(true, true));
    assert!(!combine_validity(true, false));
    assert!(!combine_validity(false, true));
    assert!(!combine_validity(false, false));
}

#[test]
fn test_maybe_usize_conversion() {
    assert_eq!(maybe_usize(5), Ok(5usize));
    assert_eq!(maybe_usize(0), Ok(0usize));
    assert_eq!(maybe_usize(-1), Err(Error::DictionaryKeyOverflow));
    assert_eq!(
        maybe_usize((usize::MAX as i128) + 1),
        Err(Error::DictionaryKeyOverflow)
    );
}

#[test]
fn test_equal_ignores_how_validity_is_stored() {
    let with_bitmap = prim_options(DataType::Int8, &[Some(1), Some(2)]);
    let without = prim_values(DataType::Int8, &[1, 2]);
    assert!(equal(
        &Array::FixedWidth(with_bitmap),
        &Array::FixedWidth(without),
    ));

    let a = prim_values(DataType::Int8, &[1, 2]);
    let b = prim_values(DataType::Int16, &[1, 2]);
    assert!(!equal(&Array::FixedWidth(a), &Array::FixedWidth(b)));
}
