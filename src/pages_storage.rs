use vstd::prelude::*;
use crate::hashing::{
    blob_key, blob_key_spec, index_key_spec, lemma_index_key_not_blob_key, page_hash,
    page_hash_spec, page_index_key, zero_page_spec, BLOB_KEY_TAG,
};
use crate::bytes::zero_page;
use crate::kv::MemKVStore;

verus! {

/// The bytes of page `index` of scope `scope` in the backing-store contents `kv`:
/// the content found under the hash that the index maps to, or zeros where the
/// index maps to nothing.
pub open spec fn stored_page(kv: Map<Seq<u8>, Seq<u8>>, scope: Seq<u8>, page_size: nat, index: u32) -> Seq<u8> {
    let k = index_key_spec(scope, index);
    if kv.contains_key(k) && kv.contains_key(blob_key_spec(kv[k])) {
        kv[blob_key_spec(kv[k])]
    } else {
        zero_page_spec(page_size)
    }
}

/// The backing-store contents after page `index` is written with `page`:
/// the content under its hash, and the index mapped to that hash.
pub open spec fn kv_after_write(kv: Map<Seq<u8>, Seq<u8>>, scope: Seq<u8>, index: u32, page: Seq<u8>) -> Map<Seq<u8>, Seq<u8>> {
    kv.insert(blob_key_spec(page_hash_spec(page)), page).insert(
        index_key_spec(scope, index),
        page_hash_spec(page),
    )
}

/// Writing the same content to two page indices stores that content once,
/// under one hash: the two indices map to that hash, both read back the
/// content, and the only keys added are the two index keys and one content key.
pub proof fn lemma_content_addressing(
    kv: Map<Seq<u8>, Seq<u8>>,
    scope: Seq<u8>,
    page_size: nat,
    i: u32,
    j: u32,
    page: Seq<u8>,
)
    ensures
        ({
            let after = kv_after_write(kv_after_write(kv, scope, i, page), scope, j, page);
            let h = page_hash_spec(page);
            &&& after[index_key_spec(scope, i)] == h
            &&& after[index_key_spec(scope, j)] == h
            &&& after[blob_key_spec(h)] == page
            &&& after.dom() == kv.dom().insert(blob_key_spec(h)).insert(index_key_spec(scope, i)).insert(
                index_key_spec(scope, j),
            )
            &&& stored_page(after, scope, page_size, i) == page
            &&& stored_page(after, scope, page_size, j) == page
        }),
{
    let h = page_hash_spec(page);
    let after = kv_after_write(kv_after_write(kv, scope, i, page), scope, j, page);
    lemma_index_key_not_blob_key(scope, i, h);
    lemma_index_key_not_blob_key(scope, j, h);
    assert(after.dom() =~= kv.dom().insert(blob_key_spec(h)).insert(index_key_spec(scope, i)).insert(
        index_key_spec(scope, j),
    ));
}

/// Whole pages of one contract, kept in a content-addressed backing store:
/// each content once under its hash, and each page index mapped to the hash
/// of its content.
pub struct PagesStorage {
    kv: MemKVStore,
    scope: Vec<u8>,
    page_size: usize,
}

impl PagesStorage {
    /// The backing store's contents.
    pub closed spec fn kv_view(&self) -> Map<Seq<u8>, Seq<u8>> {
        self.kv@
    }

    /// The contract scope that every index key carries.
    pub closed spec fn scope(&self) -> Seq<u8> {
        self.scope@
    }

    /// The capacity of each page, in bytes.
    pub closed spec fn page_size(&self) -> nat {
        self.page_size as nat
    }

    /// The current bytes of page `index`.
    pub open spec fn page(&self, index: u32) -> Seq<u8> {
        stored_page(self.kv_view(), self.scope(), self.page_size(), index)
    }

    /// The content hash that page `index` maps to, if it was written.
    pub open spec fn stored_hash(&self, index: u32) -> Option<Seq<u8>> {
        if self.kv_view().contains_key(index_key_spec(self.scope(), index)) {
            Some(self.kv_view()[index_key_spec(self.scope(), index)])
        } else {
            None
        }
    }

    /// The store is consistent, and every content in it has the page size
    /// and is stored under its own hash.
    pub closed spec fn wf(&self) -> bool {
        &&& self.kv.wf()
        &&& forall|k: Seq<u8>|
            #![trigger self.kv@.contains_key(k)]
            self.kv@.contains_key(k) && k.len() > 0 && k[0] == BLOB_KEY_TAG ==> {
                &&& self.kv@[k].len() == self.page_size
                &&& k == blob_key_spec(page_hash_spec(self.kv@[k]))
            }
    }

    /// Every page of a well-formed storage has the page size.
    pub proof fn lemma_page_len(&self, index: u32)
        requires
            self.wf(),
        ensures
            self.page(index).len() == self.page_size(),
    {
        let k = index_key_spec(self.scope(), index);
        if self.kv@.contains_key(k) && self.kv@.contains_key(blob_key_spec(self.kv@[k])) {
            let b = blob_key_spec(self.kv@[k]);
            assert(b[0] == BLOB_KEY_TAG);
        }
    }

    /// A page whose index maps to a hash under which content is stored
    /// holds content with that hash.
    pub proof fn lemma_page_has_stored_hash(&self, index: u32)
        requires
            self.wf(),
            self.stored_hash(index) is Some,
            self.kv_view().contains_key(blob_key_spec(self.stored_hash(index)->Some_0)),
        ensures
            page_hash_spec(self.page(index)) == self.stored_hash(index)->Some_0,
    {
        let h = self.stored_hash(index)->Some_0;
        let b = blob_key_spec(h);
        assert(b[0] == BLOB_KEY_TAG);
        assert(self.kv@.contains_key(b));
        let h2 = page_hash_spec(self.kv@[b]);
        assert(b == blob_key_spec(h2));
        assert(h =~= b.skip(1));
        assert(h2 =~= blob_key_spec(h2).skip(1));
    }

    /// An empty storage for contract scope `scope`, with pages of `page_size` bytes.
    pub fn new(scope: Vec<u8>, page_size: usize) -> (r: PagesStorage)
        ensures
            r.wf(),
            r.kv_view() == Map::<Seq<u8>, Seq<u8>>::empty(),
            r.scope() == scope@,
            r.page_size() == page_size,
            forall|i: u32| #[trigger] r.page(i) == zero_page_spec(page_size as nat),
    {
        PagesStorage { kv: MemKVStore::new(), scope, page_size }
    }

    /// The capacity of each page, in bytes.
    pub fn page_size_exec(&self) -> (r: usize)
        ensures
            r == self.page_size(),
    {
        self.page_size
    }

    /// The content hash that page `index` maps to, if it was written.
    pub fn hash_of_page(&self, index: u32) -> (r: Option<Vec<u8>>)
        requires
            self.wf(),
        ensures
            r is Some <==> self.stored_hash(index) is Some,
            r matches Some(h) ==> self.stored_hash(index) == Some(h@),
    {
        let key = page_index_key(self.scope.as_slice(), index);
        self.kv.get(key.as_slice())
    }

    /// The bytes of page `index`: zeros where it was never written.
    pub fn read_page(&self, index: u32) -> (r: Vec<u8>)
        requires
            self.wf(),
        ensures
            r@ == self.page(index),
            r@.len() == self.page_size(),
    {
        proof {
            self.lemma_page_len(index);
        }
        let key = page_index_key(self.scope.as_slice(), index);
        match self.kv.get(key.as_slice()) {
            Some(hash) => {
                let bkey = blob_key(hash.as_slice());
                match self.kv.get(bkey.as_slice()) {
                    Some(bytes) => bytes,
                    None => zero_page(self.page_size),
                }
            },
            None => zero_page(self.page_size),
        }
    }

    /// Stores `page` as the content of page `index`: the content goes under
    /// its hash, and the index is mapped to that hash.
    pub fn write_page(&mut self, index: u32, page: &[u8])
        requires
            old(self).wf(),
            page@.len() == old(self).page_size(),
        ensures
            final(self).wf(),
            final(self).scope() == old(self).scope(),
            final(self).page_size() == old(self).page_size(),
            final(self).kv_view() == kv_after_write(old(self).kv_view(), old(self).scope(), index, page@),
            final(self).page(index) == page@,
    {
        let hash = page_hash(page);
        let bkey = blob_key(hash.as_slice());
        self.kv.put(bkey.as_slice(), page);
        let key = page_index_key(self.scope.as_slice(), index);
        self.kv.put(key.as_slice(), hash.as_slice());
        proof {
            lemma_index_key_not_blob_key(self.scope@, index, hash@);
            assert forall|k: Seq<u8>|
                #![trigger self.kv@.contains_key(k)]
                self.kv@.contains_key(k) && k.len() > 0 && k[0] == BLOB_KEY_TAG implies {
                    &&& self.kv@[k].len() == self.page_size
                    &&& k == blob_key_spec(page_hash_spec(self.kv@[k]))
                } by {
                if k != bkey@ {
                    assert(k != key@);
                    assert(old(self).kv@.contains_key(k));
                }
            }
        }
    }

    /// Forgets page `index`: it reads as zeros again. Its content stays
    /// stored under its hash, where other pages may share it.
    pub fn discard_page(&mut self, index: u32)
        requires
            old(self).wf(),
        ensures
            final(self).wf(),
            final(self).scope() == old(self).scope(),
            final(self).page_size() == old(self).page_size(),
            final(self).kv_view() == old(self).kv_view().remove(index_key_spec(old(self).scope(), index)),
            final(self).page(index) == zero_page_spec(old(self).page_size()),
    {
        let key = page_index_key(self.scope.as_slice(), index);
        self.kv.delete(key.as_slice());
        proof {
            assert forall|k: Seq<u8>|
                #![trigger self.kv@.contains_key(k)]
                self.kv@.contains_key(k) && k.len() > 0 && k[0] == BLOB_KEY_TAG implies {
                    &&& self.kv@[k].len() == self.page_size
                    &&& k == blob_key_spec(page_hash_spec(self.kv@[k]))
                } by {
                assert(old(self).kv@.contains_key(k));
            }
        }
    }
}

} // verus!
