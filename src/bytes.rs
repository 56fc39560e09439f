use vstd::prelude::*;
use crate::hashing::{is_zero_spec, zero_page_spec};

verus! {

/// Whether two byte strings are equal.
pub fn bytes_equal(a: &[u8], b: &[u8]) -> (r: bool)
    ensures
        r == (a@ == b@),
{
    if a.len() != b.len() {
        return false;
    }
    let mut i: usize = 0;
    while i < a.len()
        invariant
            a@.len() == b@.len(),
            0 <= i <= a@.len(),
            forall|j: int| 0 <= j < i ==> a@[j] == b@[j],
        decreases a@.len() - i,
    {
        if a[i] != b[i] {
            return false;
        }
        i = i + 1;
    }
    assert(a@ =~= b@);
    true
}

/// Appends the bytes of `src` to `dst`.
pub fn append(dst: &mut Vec<u8>, src: &[u8])
    ensures
        final(dst)@ == old(dst)@.add(src@),
{
    let mut j: usize = 0;
    while j < src.len()
        invariant
            0 <= j <= src@.len(),
            dst@ == old(dst)@.add(src@.take(j as int)),
        decreases src@.len() - j,
    {
        dst.push(src[j]);
        assert(dst@ =~= old(dst)@.add(src@.take(j + 1)));
        j = j + 1;
    }
    assert(src@.take(src@.len() as int) =~= src@);
}

/// A fresh vector holding the bytes of `src`.
pub fn to_owned(src: &[u8]) -> (r: Vec<u8>)
    ensures
        r@ == src@,
{
    let mut r: Vec<u8> = Vec::new();
    append(&mut r, src);
    assert(r@ =~= src@);
    r
}

/// Whether every byte of `page` is zero.
pub fn is_zero(page: &[u8]) -> (r: bool)
    ensures
        r == is_zero_spec(page@),
{
    let mut i: usize = 0;
    while i < page.len()
        invariant
            0 <= i <= page@.len(),
            forall|j: int| 0 <= j < i ==> page@[j] == 0u8,
        decreases page@.len() - i,
    {
        if page[i] != 0 {
            return false;
        }
        i = i + 1;
    }
    true
}

/// `n` zero bytes.
pub fn zero_page(n: usize) -> (r: Vec<u8>)
    ensures
        r@ == zero_page_spec(n as nat),
{
    let mut r: Vec<u8> = Vec::new();
    let mut i: usize = 0;
    while i < n
        invariant
            0 <= i <= n,
            r@ == zero_page_spec(i as nat),
        decreases n - i,
    {
        r.push(0u8);
        assert(r@ =~= zero_page_spec((i + 1) as nat));
        i = i + 1;
    }
    r
}

} // verus!
