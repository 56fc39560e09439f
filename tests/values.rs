use svm_storage::error::StorageError;
use svm_storage::values::{decode_wasm_values, encode_wasm_values, WasmValue, I32_TYPE, I64_TYPE};

#[test]
fn empty_vec_values_to_svm_byte_array() {
    let vec = Vec::<WasmValue>::new();

    let slice = encode_wasm_values(&vec);

    let nvalues = slice[0];
    assert_eq!(nvalues, 0);
}

#[test]
fn empty_svm_byte_array_to_vec_values_errors() {
    let res = decode_wasm_values(&[]);

    assert!(res.is_err());
}

#[test]
fn svm_byte_array_to_vec_values_with_zero_items() {
    let raw = vec![0];

    let res = decode_wasm_values(&raw);

    assert_eq!(res.unwrap(), vec![]);
}

#[test]
fn svm_byte_array_to_vec_values_with_missing_type_byte_error() {
    let raw = vec![1];

    let res = decode_wasm_values(&raw);
    assert!(res.is_err());
}

#[test]
fn svm_byte_array_to_vec_values_with_missing_value_bytes_error() {
    let raw = vec![1, I32_TYPE, 0x10, 0x20];

    let res = decode_wasm_values(&raw);
    assert!(res.is_err());
}

#[test]
fn wasm_values_encode_layout_and_round_trip() {
    let values = vec![WasmValue::I32(5), WasmValue::I64(0x0102030405060708)];
    let bytes = encode_wasm_values(&values);
    assert_eq!(
        bytes,
        vec![2, I32_TYPE, 0, 0, 0, 5, I64_TYPE, 1, 2, 3, 4, 5, 6, 7, 8]
    );
    assert_eq!(decode_wasm_values(&bytes), Ok(values));
}

#[test]
fn wasm_values_decode_rejects_unknown_type() {
    assert_eq!(decode_wasm_values(&[1, 7, 0, 0, 0, 0]), Err(StorageError::MalformedEncoding));
    assert_eq!(decode_wasm_values(&[1, I64_TYPE, 0, 0, 0, 0]), Err(StorageError::MalformedEncoding));
    assert_eq!(decode_wasm_values(&[1, I32_TYPE, 0, 0, 1, 0, 99]), Ok(vec![WasmValue::I32(256)]));
}

#[test]
fn wasm_values_decode_rejects_truncated_later_value() {
    let values = vec![WasmValue::I32(1), WasmValue::I64(2)];
    let bytes = encode_wasm_values(&values);
    for cut in 0..bytes.len() {
        assert_eq!(decode_wasm_values(&bytes[..cut]), Err(StorageError::MalformedEncoding));
    }
}
