use svm_storage::buffers::{
    buffer_create, buffer_freeze, buffer_kill, buffer_read, buffer_write, wasmer_data_buffer,
    BufferTable,
};
use svm_storage::error::StorageError;

#[test]
fn buffer_lifecycle() {
    let mut t = BufferTable::new();
    assert_eq!(buffer_create(&mut t, 1, 4), Ok(()));
    assert_eq!(buffer_create(&mut t, 1, 4), Err(StorageError::AlreadyExists));
    assert_eq!(buffer_write(&mut t, 1, &[1, 2]), Ok(()));
    assert_eq!(buffer_write(&mut t, 1, &[3]), Ok(()));
    assert_eq!(buffer_write(&mut t, 1, &[4, 5]), Err(StorageError::OutOfRange));
    assert_eq!(buffer_read(&t, 1), Ok(vec![1, 2, 3]));
    assert_eq!(buffer_freeze(&mut t, 1), Ok(()));
    assert_eq!(buffer_freeze(&mut t, 1), Ok(()));
    assert_eq!(buffer_write(&mut t, 1, &[4]), Err(StorageError::FrozenBuffer));
    assert_eq!(buffer_read(&t, 1), Ok(vec![1, 2, 3]));
    assert!(wasmer_data_buffer(&t, 1).is_some());
    assert_eq!(buffer_kill(&mut t, 1), Ok(()));
    assert!(wasmer_data_buffer(&t, 1).is_none());
}

#[test]
fn buffer_unknown_ids() {
    let mut t = BufferTable::new();
    assert_eq!(buffer_kill(&mut t, 7), Err(StorageError::UnknownId));
    assert_eq!(buffer_freeze(&mut t, 7), Err(StorageError::UnknownId));
    assert_eq!(buffer_write(&mut t, 7, &[1]), Err(StorageError::UnknownId));
    assert_eq!(buffer_read(&t, 7), Err(StorageError::UnknownId));
}

#[test]
fn buffer_write_fills_to_exact_capacity() {
    let mut t = BufferTable::new();
    buffer_create(&mut t, 3, 3).unwrap();
    assert_eq!(buffer_write(&mut t, 3, &[1, 2, 3]), Ok(()));
    assert_eq!(buffer_read(&t, 3), Ok(vec![1, 2, 3]));
    assert_eq!(buffer_write(&mut t, 3, &[]), Ok(()));
    assert_eq!(buffer_write(&mut t, 3, &[4]), Err(StorageError::OutOfRange));
}
