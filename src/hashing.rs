use vstd::prelude::*;
use crate::state::{State, zeros_spec};
use crate::bytes::append;

verus! {

/// What Keccak-256 gives for `data`: 32 bytes that depend on `data` alone.
pub uninterp spec fn keccak256_of(data: Seq<u8>) -> Seq<u8>;

/// Relies on tiny_keccak's `Keccak::v256` with `Hasher::update` and
/// `Hasher::finalize`: the Keccak-256 digest of `data`, written into 32 bytes.
#[verifier::external_body]
fn keccak256(data: &[u8]) -> (r: Vec<u8>)
    ensures
        r@ == keccak256_of(data@),
        r@.len() == 32,
{
    let mut hasher = tiny_keccak::Keccak::v256();
    tiny_keccak::Hasher::update(&mut hasher, data);
    let mut out = [0u8; 32];
    tiny_keccak::Hasher::finalize(hasher, &mut out);
    out.to_vec()
}

/// The big-endian bytes of `n`.
pub open spec fn be32_spec(n: u32) -> Seq<u8> {
    seq![(n >> 24u32) as u8, (n >> 16u32) as u8, (n >> 8u32) as u8, n as u8]
}

/// Relies on byteorder's `BigEndian::write_u32`: the four bytes of `n`,
/// most significant first.
#[verifier::external_body]
pub(crate) fn be_u32_bytes(n: u32) -> (r: Vec<u8>)
    ensures
        r@ == be32_spec(n),
{
    let mut buf = [0u8; 4];
    <byteorder::BigEndian as byteorder::ByteOrder>::write_u32(&mut buf, n);
    buf.to_vec()
}

/// The big-endian bytes of `n`.
pub open spec fn be64_spec(n: u64) -> Seq<u8> {
    seq![
        (n >> 56u64) as u8, (n >> 48u64) as u8, (n >> 40u64) as u8, (n >> 32u64) as u8,
        (n >> 24u64) as u8, (n >> 16u64) as u8, (n >> 8u64) as u8, n as u8,
    ]
}

/// Relies on byteorder's `BigEndian::write_u64`: the eight bytes of `n`,
/// most significant first.
#[verifier::external_body]
pub(crate) fn be_u64_bytes(n: u64) -> (r: Vec<u8>)
    ensures
        r@ == be64_spec(n),
{
    let mut buf = [0u8; 8];
    <byteorder::BigEndian as byteorder::ByteOrder>::write_u64(&mut buf, n);
    buf.to_vec()
}

/// Relies on byteorder's `BigEndian::read_u32`: the number whose big-endian
/// bytes are the four of `b` from `at` on.
#[verifier::external_body]
pub(crate) fn read_be_u32_at(b: &[u8], at: usize) -> (r: u32)
    requires
        at + 4 <= b@.len(),
    ensures
        be32_spec(r) == b@.subrange(at as int, at + 4),
{
    <byteorder::BigEndian as byteorder::ByteOrder>::read_u32(&b[at..])
}

/// Relies on byteorder's `BigEndian::read_u64`: the number whose big-endian
/// bytes are the eight of `b` from `at` on.
#[verifier::external_body]
pub(crate) fn read_be_u64_at(b: &[u8], at: usize) -> (r: u64)
    requires
        at + 8 <= b@.len(),
    ensures
        be64_spec(r) == b@.subrange(at as int, at + 8),
{
    <byteorder::BigEndian as byteorder::ByteOrder>::read_u64(&b[at..])
}

/// Two numbers with the same big-endian bytes are equal.
pub proof fn lemma_be64_injective(a: u64, b: u64)
    requires
        be64_spec(a) == be64_spec(b),
    ensures
        a == b,
{
    assert(be64_spec(a)[0] == be64_spec(b)[0]);
    assert(be64_spec(a)[1] == be64_spec(b)[1]);
    assert(be64_spec(a)[2] == be64_spec(b)[2]);
    assert(be64_spec(a)[3] == be64_spec(b)[3]);
    assert(be64_spec(a)[4] == be64_spec(b)[4]);
    assert(be64_spec(a)[5] == be64_spec(b)[5]);
    assert(be64_spec(a)[6] == be64_spec(b)[6]);
    assert(be64_spec(a)[7] == be64_spec(b)[7]);
    assert(((a >> 56u64) as u8 == (b >> 56u64) as u8 && (a >> 48u64) as u8 == (b >> 48u64) as u8
        && (a >> 40u64) as u8 == (b >> 40u64) as u8 && (a >> 32u64) as u8 == (b >> 32u64) as u8
        && (a >> 24u64) as u8 == (b >> 24u64) as u8 && (a >> 16u64) as u8 == (b >> 16u64) as u8
        && (a >> 8u64) as u8 == (b >> 8u64) as u8 && a as u8 == b as u8) ==> a == b)
        by (bit_vector);
}

/// Two numbers with the same big-endian bytes are equal.
pub proof fn lemma_be32_injective(a: u32, b: u32)
    requires
        be32_spec(a) == be32_spec(b),
    ensures
        a == b,
{
    assert(be32_spec(a)[0] == be32_spec(b)[0]);
    assert(be32_spec(a)[1] == be32_spec(b)[1]);
    assert(be32_spec(a)[2] == be32_spec(b)[2]);
    assert(be32_spec(a)[3] == be32_spec(b)[3]);
    assert(((a >> 24u32) as u8 == (b >> 24u32) as u8 && (a >> 16u32) as u8 == (b >> 16u32) as u8
        && (a >> 8u32) as u8 == (b >> 8u32) as u8 && a as u8 == b as u8) ==> a == b)
        by (bit_vector);
}

/// The content hash of a page: its Keccak-256 digest.
pub open spec fn page_hash_spec(page: Seq<u8>) -> Seq<u8> {
    keccak256_of(page)
}

/// The content hash of a page.
pub fn page_hash(page: &[u8]) -> (r: Vec<u8>)
    ensures
        r@ == page_hash_spec(page@),
        r@.len() == 32,
{
    keccak256(page)
}

/// The first byte of the backing-store keys that map a page index to a content hash.
pub const INDEX_KEY_TAG: u8 = 0;

/// The first byte of the backing-store keys under which page contents are stored.
pub const BLOB_KEY_TAG: u8 = 1;

/// The backing-store key of page `index` in contract scope `scope`:
/// a tag byte, the index's four big-endian bytes, then the scope.
pub open spec fn index_key_spec(scope: Seq<u8>, index: u32) -> Seq<u8> {
    seq![INDEX_KEY_TAG].add(be32_spec(index)).add(scope)
}

/// The backing-store key of the page content whose hash is `hash`.
pub open spec fn blob_key_spec(hash: Seq<u8>) -> Seq<u8> {
    seq![BLOB_KEY_TAG].add(hash)
}

/// Distinct (scope, index) pairs never share a key.
pub proof fn lemma_index_key_injective(s1: Seq<u8>, i1: u32, s2: Seq<u8>, i2: u32)
    requires
        index_key_spec(s1, i1) == index_key_spec(s2, i2),
    ensures
        s1 == s2,
        i1 == i2,
{
    let k1 = index_key_spec(s1, i1);
    let k2 = index_key_spec(s2, i2);
    assert(be32_spec(i1) =~= k1.subrange(1, 5));
    assert(be32_spec(i2) =~= k2.subrange(1, 5));
    lemma_be32_injective(i1, i2);
    assert(s1 =~= k1.skip(5));
    assert(s2 =~= k2.skip(5));
}

/// An index key is never a content key.
pub proof fn lemma_index_key_not_blob_key(scope: Seq<u8>, index: u32, hash: Seq<u8>)
    ensures
        index_key_spec(scope, index) != blob_key_spec(hash),
{
    assert(index_key_spec(scope, index)[0] != blob_key_spec(hash)[0]);
}

/// The key of page `index` in contract scope `scope`.
pub fn page_index_key(scope: &[u8], index: u32) -> (r: Vec<u8>)
    ensures
        r@ == index_key_spec(scope@, index),
{
    let mut r: Vec<u8> = Vec::new();
    r.push(INDEX_KEY_TAG);
    let be = be_u32_bytes(index);
    let mut i: usize = 0;
    while i < be.len()
        invariant
            be@ == be32_spec(index),
            0 <= i <= 4,
            r@ == seq![INDEX_KEY_TAG].add(be@.take(i as int)),
        decreases 4 - i,
    {
        r.push(be[i]);
        assert(be@.take(i + 1) =~= be@.take(i as int).push(be@[i as int]));
        assert(r@ =~= seq![INDEX_KEY_TAG].add(be@.take(i + 1)));
        i = i + 1;
    }
    assert(be@.take(4) =~= be@);
    let mut j: usize = 0;
    while j < scope.len()
        invariant
            0 <= j <= scope@.len(),
            r@ == seq![INDEX_KEY_TAG].add(be32_spec(index)).add(scope@.take(j as int)),
        decreases scope@.len() - j,
    {
        r.push(scope[j]);
        assert(r@ =~= seq![INDEX_KEY_TAG].add(be32_spec(index)).add(scope@.take(j + 1)));
        j = j + 1;
    }
    assert(scope@.take(scope@.len() as int) =~= scope@);
    r
}

/// The key under which the page content with hash `hash` is stored.
pub fn blob_key(hash: &[u8]) -> (r: Vec<u8>)
    ensures
        r@ == blob_key_spec(hash@),
{
    let mut r: Vec<u8> = Vec::new();
    r.push(BLOB_KEY_TAG);
    let mut j: usize = 0;
    while j < hash.len()
        invariant
            0 <= j <= hash@.len(),
            r@ == seq![BLOB_KEY_TAG].add(hash@.take(j as int)),
        decreases hash@.len() - j,
    {
        r.push(hash[j]);
        assert(r@ =~= seq![BLOB_KEY_TAG].add(hash@.take(j + 1)));
        j = j + 1;
    }
    assert(hash@.take(hash@.len() as int) =~= hash@);
    r
}

/// Whether every byte of `page` is zero.
pub open spec fn is_zero_spec(page: Seq<u8>) -> bool {
    forall|i: int| 0 <= i < page.len() ==> page[i] == 0u8
}

/// `n` zero bytes.
pub open spec fn zero_page_spec(n: nat) -> Seq<u8> {
    Seq::new(n, |_i: int| 0u8)
}

/// The bytes that the state hasher digests for an ordered list of
/// (page index, page hash) entries: each index in big-endian, then its hash.
pub open spec fn entries_preimage(entries: Seq<(u32, Seq<u8>)>) -> Seq<u8>
    decreases entries.len(),
{
    if entries.len() == 0 {
        Seq::empty()
    } else {
        let last = entries.last();
        entries_preimage(entries.drop_last()).add(be32_spec(last.0)).add(last.1)
    }
}

/// The state of an ordered list of (page index, page hash) entries:
/// all zeros for no entries, else the Keccak-256 digest of their preimage.
pub open spec fn state_of_entries(entries: Seq<(u32, Seq<u8>)>) -> Seq<u8> {
    if entries.len() == 0 {
        zeros_spec()
    } else {
        keccak256_of(entries_preimage(entries))
    }
}

/// The (index, hash) entries of a contract's pages, by ascending index,
/// leaving out the pages whose bytes are all zero.
pub open spec fn page_entries(pages: Seq<Seq<u8>>) -> Seq<(u32, Seq<u8>)>
    decreases pages.len(),
{
    if pages.len() == 0 {
        Seq::empty()
    } else {
        let rest = page_entries(pages.drop_last());
        if is_zero_spec(pages.last()) {
            rest
        } else {
            rest.push((((pages.len() - 1) as u32), page_hash_spec(pages.last())))
        }
    }
}

/// The state of a contract whose page `i` holds `pages[i]`.
pub open spec fn state_of_pages(pages: Seq<Seq<u8>>) -> Seq<u8> {
    state_of_entries(page_entries(pages))
}

/// Pages that are all zero contribute no entry, so their state is all zeros.
pub proof fn lemma_zero_pages_state(pages: Seq<Seq<u8>>)
    requires
        forall|i: int| 0 <= i < pages.len() ==> is_zero_spec(#[trigger] pages[i]),
    ensures
        page_entries(pages).len() == 0,
        state_of_pages(pages) == zeros_spec(),
    decreases pages.len(),
{
    if pages.len() > 0 {
        let rest = pages.drop_last();
        assert forall|i: int| 0 <= i < rest.len() implies is_zero_spec(#[trigger] rest[i]) by {
            assert(rest[i] == pages[i]);
        }
        lemma_zero_pages_state(rest);
        assert(is_zero_spec(pages[pages.len() - 1]));
    }
}

/// The state hasher: folds (page index, page hash) entries, given in
/// ascending index order, into a `State`.
pub fn fold_state(entries: &Vec<(u32, Vec<u8>)>) -> (r: State)
    ensures
        r@ == state_of_entries(entries.deep_view()),
{
    if entries.len() == 0 {
        return State::zeros();
    }
    let mut pre: Vec<u8> = Vec::new();
    let mut i: usize = 0;
    while i < entries.len()
        invariant
            0 <= i <= entries@.len(),
            pre@ == entries_preimage(entries.deep_view().take(i as int)),
        decreases entries@.len() - i,
    {
        let be = be_u32_bytes(entries[i].0);
        append(&mut pre, &be);
        append(&mut pre, &entries[i].1);
        proof {
            let e = entries.deep_view();
            assert(e.take(i + 1).drop_last() =~= e.take(i as int));
            assert(e[i as int] == (entries@[i as int].0, entries@[i as int].1@));
        }
        i = i + 1;
    }
    assert(entries.deep_view().take(entries@.len() as int) =~= entries.deep_view());
    let digest = keccak256(pre.as_slice());
    let r = State::from_exact(digest.as_slice());
    match r {
        Some(s) => s,
        None => State::zeros(),
    }
}

} // verus!
