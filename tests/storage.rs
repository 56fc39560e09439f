use svm_storage::error::StorageError;
use svm_storage::hashing::{blob_key, page_hash, page_index_key, fold_state};
use svm_storage::kv::MemKVStore;
use svm_storage::page_cache::PageCache;
use svm_storage::page_slice_cache::PageSliceCache;
use svm_storage::pages_storage::PagesStorage;
use svm_storage::state::State;

use tiny_keccak::{Hasher, Keccak};

fn keccak(data: &[u8]) -> Vec<u8> {
    let mut k = Keccak::v256();
    k.update(data);
    let mut out = [0u8; 32];
    k.finalize(&mut out);
    out.to_vec()
}

fn scope() -> Vec<u8> {
    vec![0xAA; 20]
}

fn fresh(page_size: usize, page_count: u32) -> PageSliceCache {
    PageSliceCache::open(PagesStorage::new(scope(), page_size), page_count)
}

#[test]
fn keccak_of_empty_input() {
    let h = page_hash(&[]);
    let expected: Vec<u8> = vec![
        0xc5, 0xd2, 0x46, 0x01, 0x86, 0xf7, 0x23, 0x3c, 0x92, 0x7e, 0x7d, 0xb2, 0xdc, 0xc7, 0x03,
        0xc0, 0xe5, 0x00, 0xb6, 0x53, 0xca, 0x82, 0x27, 0x3b, 0x7b, 0xfa, 0xd8, 0x04, 0x5d, 0x85,
        0xa4, 0x70,
    ];
    assert_eq!(h, expected);
}

#[test]
fn index_key_layout() {
    assert_eq!(page_index_key(&[9, 8], 0x01020304), vec![0, 1, 2, 3, 4, 9, 8]);
    assert_eq!(blob_key(&[5, 6]), vec![1, 5, 6]);
}

#[test]
fn kv_store_put_get_delete() {
    let mut kv = MemKVStore::new();
    assert_eq!(kv.get(&[1]), None);
    kv.put(&[1], &[10, 11]);
    kv.put(&[2], &[20]);
    kv.put(&[1], &[12]);
    assert_eq!(kv.get(&[1]), Some(vec![12]));
    assert_eq!(kv.get(&[2]), Some(vec![20]));
    kv.delete(&[1]);
    assert_eq!(kv.get(&[1]), None);
    assert_eq!(kv.get(&[2]), Some(vec![20]));
}

#[test]
fn pages_storage_reads_zeros_then_written_content() {
    let mut st = PagesStorage::new(scope(), 8);
    assert_eq!(st.read_page(3), vec![0u8; 8]);
    st.write_page(3, &[1, 2, 3, 4, 5, 6, 7, 8]);
    assert_eq!(st.read_page(3), vec![1, 2, 3, 4, 5, 6, 7, 8]);
    assert_eq!(st.read_page(2), vec![0u8; 8]);
    st.discard_page(3);
    assert_eq!(st.read_page(3), vec![0u8; 8]);
}

#[test]
fn write_then_read_slice_round_trip() {
    let mut c = fresh(16, 4);
    assert_eq!(c.write_slice(2, 5, &[9, 8, 7]), Ok(()));
    assert_eq!(c.read_slice(2, 5, 3), Ok(vec![9, 8, 7]));
    assert_eq!(c.read_slice(2, 0, 16), Ok(vec![0, 0, 0, 0, 0, 9, 8, 7, 0, 0, 0, 0, 0, 0, 0, 0]));
    assert_eq!(c.write_slice(2, 6, &[1, 1]), Ok(()));
    assert_eq!(c.read_slice(2, 4, 5), Ok(vec![0, 9, 1, 1, 0]));
}

#[test]
fn identical_content_is_stored_once() {
    let mut c = fresh(8, 4);
    c.write_slice(0, 0, &[1, 2, 3]).unwrap();
    c.write_slice(3, 0, &[1, 2, 3]).unwrap();
    c.commit().unwrap();
    let st = c.into_storage();
    assert_eq!(st.read_page(0), st.read_page(3));
    let mut page = vec![0u8; 8];
    page[..3].copy_from_slice(&[1, 2, 3]);
    assert_eq!(st.read_page(0), page);
    assert_eq!(page_hash(&page), keccak(&page));
    assert_eq!(st.hash_of_page(0), Some(keccak(&page)));
    assert_eq!(st.hash_of_page(3), Some(keccak(&page)));
    assert_eq!(st.hash_of_page(1), None);
}

#[test]
fn empty_commit_over_fresh_scope_is_zeros() {
    let mut c = fresh(64, 3);
    assert_eq!(c.commit(), Ok(State::zeros()));
}

#[test]
fn same_writes_give_same_state() {
    let mut a = fresh(32, 4);
    let mut b = fresh(32, 4);
    for c in [&mut a, &mut b] {
        c.write_slice(1, 3, &[5, 6, 7]).unwrap();
        c.write_slice(3, 0, &[1]).unwrap();
        c.write_slice(1, 4, &[9]).unwrap();
    }
    let sa = a.commit().unwrap();
    let sb = b.commit().unwrap();
    assert_eq!(sa, sb);
    assert!(!sa.is_zeros());
}

#[test]
fn discard_leaves_storage_unchanged() {
    let mut c = fresh(8, 2);
    c.write_slice(0, 0, &[4, 4]).unwrap();
    c.commit().unwrap();
    let mut c = PageSliceCache::open(c.into_storage(), 2);
    c.write_slice(0, 0, &[7, 7, 7]).unwrap();
    c.write_slice(1, 0, &[7]).unwrap();
    assert_eq!(c.discard(), Ok(()));
    let mut again = PageSliceCache::open(c.into_storage(), 2);
    assert_eq!(again.read_slice(0, 0, 4), Ok(vec![4, 4, 0, 0]));
    assert_eq!(again.read_slice(1, 0, 2), Ok(vec![0, 0]));
}

#[test]
fn out_of_range_slices_are_rejected() {
    let cap = 64usize;
    let mut c = fresh(cap, 2);
    assert_eq!(c.write_slice(0, cap - 1, &[1, 2]), Err(StorageError::OutOfRange));
    assert_eq!(c.read_slice(0, cap - 1, 2), Err(StorageError::OutOfRange));
    assert_eq!(c.read_slice(0, cap + 1, 0), Err(StorageError::OutOfRange));
    assert_eq!(c.read_slice(0, 1, usize::MAX), Err(StorageError::OutOfRange));
    assert_eq!(c.read_slice(2, 0, 1), Err(StorageError::OutOfRange));
    assert_eq!(c.write_slice(0, cap - 1, &[1]), Ok(()));
    assert_eq!(c.read_slice(0, cap - 1, 1), Ok(vec![1]));
}

#[test]
fn end_to_end_hello_world() {
    let mut c = fresh(64, 2);
    c.write_slice(0, 0, b"hello").unwrap();
    c.write_slice(0, 10, b"world").unwrap();
    let s1 = c.commit().unwrap();

    let mut page = vec![0u8; 64];
    page[..5].copy_from_slice(b"hello");
    page[10..15].copy_from_slice(b"world");
    let mut pre = vec![0u8, 0, 0, 0];
    pre.extend_from_slice(&keccak(&page));
    assert_eq!(s1.0.to_vec(), keccak(&pre));

    let mut c2 = PageSliceCache::open(c.into_storage(), 2);
    assert_eq!(c2.read_slice(0, 0, 5), Ok(b"hello".to_vec()));
    assert_eq!(c2.read_slice(0, 10, 5), Ok(b"world".to_vec()));
    assert_eq!(c2.read_slice(1, 0, 64), Ok(vec![0u8; 64]));
    assert_eq!(c2.commit(), Ok(s1));
}

#[test]
fn finalized_instance_rejects_operations() {
    let mut c = fresh(16, 1);
    c.commit().unwrap();
    assert!(!c.is_open());
    assert_eq!(c.read_slice(0, 0, 1), Err(StorageError::FinalizedInstance));
    assert_eq!(c.write_slice(0, 0, &[1]), Err(StorageError::FinalizedInstance));
    assert_eq!(c.commit(), Err(StorageError::FinalizedInstance));
    assert_eq!(c.discard(), Err(StorageError::FinalizedInstance));

    let mut d = fresh(16, 1);
    d.discard().unwrap();
    assert_eq!(d.read_slice(0, 0, 1), Err(StorageError::FinalizedInstance));
    assert_eq!(d.commit(), Err(StorageError::FinalizedInstance));
}

#[test]
fn page_cache_read_write_commit() {
    let mut pc = PageCache::new(PagesStorage::new(scope(), 4), 3);
    assert_eq!(pc.read(1), Ok(vec![0, 0, 0, 0]));
    assert_eq!(pc.write(1, &[1, 2, 3]), Err(StorageError::OutOfRange));
    assert_eq!(pc.write(3, &[1, 2, 3, 4]), Err(StorageError::OutOfRange));
    assert_eq!(pc.write(2, &[1, 2, 3, 4]), Ok(()));
    assert_eq!(pc.read(2), Ok(vec![1, 2, 3, 4]));
    let s = pc.commit().unwrap();
    let expected = fold_state(&vec![(2u32, keccak(&[1, 2, 3, 4]))]);
    assert_eq!(s, expected);
    let mut pre = vec![0u8, 0, 0, 2];
    pre.extend_from_slice(&keccak(&[1, 2, 3, 4]));
    assert_eq!(s.0.to_vec(), keccak(&pre));
    assert_eq!(pc.read(0), Err(StorageError::FinalizedInstance));
    assert!(!pc.is_open());
    let st = pc.into_storage();
    assert_eq!(st.read_page(2), vec![1, 2, 3, 4]);
}

#[test]
fn zero_pages_are_left_out_of_the_state() {
    let mut c = fresh(8, 2);
    c.write_slice(1, 0, &[0, 0, 0]).unwrap();
    assert_eq!(c.commit(), Ok(State::zeros()));
}
