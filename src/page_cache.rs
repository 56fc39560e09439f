use vstd::prelude::*;
use crate::bytes::{is_zero, to_owned};
use crate::error::StorageError;
use crate::hashing::{
    blob_key_spec, index_key_spec, lemma_index_key_injective, lemma_index_key_not_blob_key, page_entries,
    page_hash, page_hash_spec, fold_state, state_of_pages,
};
use crate::pages_storage::PagesStorage;
use crate::state::State;

verus! {

/// Where a cache instance stands in its one commit window.
#[derive(Debug, Clone, Copy, PartialEq, Eq, Structural)]
pub enum InstanceStatus {
    /// Accepting reads and writes.
    Open,
    /// Committed; no further operation is accepted.
    Committed,
    /// Discarded; no further operation is accepted.
    Discarded,
}

/// A read-through, write-back cache of whole pages over a `PagesStorage`,
/// for pages `0 .. page_count`.
pub struct PageCache {
    storage: PagesStorage,
    page_count: u32,
    slots: Vec<Option<Vec<u8>>>,
    dirty: Vec<bool>,
    status: InstanceStatus,
}

impl PageCache {
    /// The storage below the cache.
    pub closed spec fn storage_view(&self) -> PagesStorage {
        self.storage
    }

    /// The number of pages the cache covers.
    pub closed spec fn page_count(&self) -> nat {
        self.page_count as nat
    }

    /// Where the instance stands.
    pub closed spec fn status(&self) -> InstanceStatus {
        self.status
    }

    /// Whether page `i` was written since it was loaded.
    pub closed spec fn is_dirty(&self, i: int) -> bool {
        self.dirty@[i]
    }

    /// The capacity of each page, in bytes.
    pub open spec fn page_size(&self) -> nat {
        self.storage_view().page_size()
    }

    /// What page `i` holds as seen through the cache.
    pub closed spec fn page_at(&self, i: int) -> Seq<u8> {
        match self.slots@[i] {
            Some(p) => p@,
            None => self.storage.page(i as u32),
        }
    }

    /// The pages as seen through the cache.
    pub open spec fn pages(&self) -> Seq<Seq<u8>> {
        Seq::new(self.page_count(), |i: int| self.page_at(i))
    }

    /// Slot and dirty tables cover every page; a cached page has the page
    /// size; only a cached page is dirty.
    pub closed spec fn wf(&self) -> bool {
        &&& self.storage.wf()
        &&& self.slots@.len() == self.page_count
        &&& self.dirty@.len() == self.page_count
        &&& forall|i: int|
            0 <= i < self.page_count ==> (#[trigger] self.slots@[i] matches Some(p) ==> p@.len()
                == self.storage.page_size())
        &&& forall|i: int| 0 <= i < self.page_count ==> #[trigger] self.dirty@[i] ==> self.slots@[i] is Some
    }

    /// Every page seen through a well-formed cache has the page size.
    pub proof fn lemma_pages_len(&self)
        requires
            self.wf(),
        ensures
            forall|i: int| 0 <= i < self.page_count() ==> #[trigger] self.pages()[i].len() == self.page_size(),
    {
        assert forall|i: int| 0 <= i < self.page_count() implies #[trigger] self.pages()[i].len() == self.page_size() by {
            self.storage.lemma_page_len(i as u32);
        }
    }

    /// An open cache over `storage` for pages `0 .. page_count`, holding nothing yet.
    pub fn new(storage: PagesStorage, page_count: u32) -> (r: PageCache)
        requires
            storage.wf(),
        ensures
            r.wf(),
            r.storage_view() == storage,
            r.page_count() == page_count,
            r.status() == InstanceStatus::Open,
            r.pages() == Seq::new(page_count as nat, |i: int| storage.page(i as u32)),
            forall|i: int| 0 <= i < page_count ==> !#[trigger] r.is_dirty(i),
    {
        let mut slots: Vec<Option<Vec<u8>>> = Vec::new();
        let mut dirty: Vec<bool> = Vec::new();
        let mut i: u32 = 0;
        while i < page_count
            invariant
                0 <= i <= page_count,
                slots@.len() == i,
                dirty@.len() == i,
                forall|j: int| 0 <= j < i ==> #[trigger] slots@[j] is None,
                forall|j: int| 0 <= j < i ==> !#[trigger] dirty@[j],
            decreases page_count - i,
        {
            slots.push(None);
            dirty.push(false);
            i = i + 1;
        }
        let r = PageCache { storage, page_count, slots, dirty, status: InstanceStatus::Open };
        assert(r.pages() =~= Seq::new(page_count as nat, |i: int| storage.page(i as u32)));
        r
    }

    /// The number of pages the cache covers.
    pub fn page_count_exec(&self) -> (r: u32)
        ensures
            r == self.page_count(),
    {
        self.page_count
    }

    /// The capacity of each page, in bytes.
    pub fn page_size_exec(&self) -> (r: usize)
        ensures
            r == self.page_size(),
    {
        self.storage.page_size_exec()
    }

    /// Whether the instance still accepts operations.
    pub fn is_open(&self) -> (r: bool)
        ensures
            r == (self.status() == InstanceStatus::Open),
    {
        self.status == InstanceStatus::Open
    }

    /// Loads page `index` into its slot, unless it is there already.
    fn load(&mut self, index: u32)
        requires
            old(self).wf(),
            index < old(self).page_count(),
        ensures
            final(self).wf(),
            final(self).pages() == old(self).pages(),
            final(self).storage_view() == old(self).storage_view(),
            final(self).page_count() == old(self).page_count(),
            final(self).status() == old(self).status(),
            final(self).dirty@ == old(self).dirty@,
            final(self).slots@[index as int] is Some,
            forall|j: int| 0 <= j < final(self).page_count() && j != index ==> #[trigger] final(self).slots@[j] == old(self).slots@[j],
    {
        let loaded = self.slots[index as usize].is_some();
        if !loaded {
            let page = self.storage.read_page(index);
            self.slots.set(index as usize, Some(page));
            assert(self.pages() =~= old(self).pages());
        }
    }

    /// The bytes of page `index`, loaded from the storage on first touch.
    pub fn read(&mut self, index: u32) -> (r: Result<Vec<u8>, StorageError>)
        requires
            old(self).wf(),
        ensures
            final(self).wf(),
            final(self).pages() == old(self).pages(),
            final(self).storage_view() == old(self).storage_view(),
            final(self).page_count() == old(self).page_count(),
            final(self).status() == old(self).status(),
            forall|i: int| #[trigger] final(self).is_dirty(i) == old(self).is_dirty(i),
            old(self).status() != InstanceStatus::Open ==> r == Err::<Vec<u8>, StorageError>(StorageError::FinalizedInstance),
            old(self).status() == InstanceStatus::Open && index >= old(self).page_count() ==> r == Err::<Vec<u8>, StorageError>(StorageError::OutOfRange),
            old(self).status() == InstanceStatus::Open && index < old(self).page_count() ==> (r matches Ok(p) && p@ == old(self).pages()[index as int]),
    {
        if self.status != InstanceStatus::Open {
            return Err(StorageError::FinalizedInstance);
        }
        if index >= self.page_count {
            return Err(StorageError::OutOfRange);
        }
        self.load(index);
        let r = match &self.slots[index as usize] {
            Some(p) => to_owned(p.as_slice()),
            None => Vec::new(),
        };
        assert(self.page_at(index as int) == self.pages()[index as int]);
        Ok(r)
    }

    /// Replaces page `index` with `page` in the cache and marks it dirty.
    pub fn write(&mut self, index: u32, page: &[u8]) -> (r: Result<(), StorageError>)
        requires
            old(self).wf(),
        ensures
            final(self).wf(),
            final(self).storage_view() == old(self).storage_view(),
            final(self).page_count() == old(self).page_count(),
            final(self).status() == old(self).status(),
            old(self).status() != InstanceStatus::Open ==> r == Err::<(), StorageError>(StorageError::FinalizedInstance),
            old(self).status() == InstanceStatus::Open && (index >= old(self).page_count()
                || page@.len() != old(self).page_size()) ==> r == Err::<(), StorageError>(StorageError::OutOfRange),
            r is Ok <==> (old(self).status() == InstanceStatus::Open && index < old(self).page_count()
                && page@.len() == old(self).page_size()),
            r is Ok ==> final(self).pages() == old(self).pages().update(index as int, page@),
            r is Ok ==> forall|i: int| 0 <= i < old(self).page_count() ==> #[trigger] final(self).is_dirty(i) == (i == index || old(self).is_dirty(i)),
            r is Err ==> final(self).pages() == old(self).pages(),
            r is Err ==> forall|i: int| #[trigger] final(self).is_dirty(i) == old(self).is_dirty(i),
    {
        if self.status != InstanceStatus::Open {
            return Err(StorageError::FinalizedInstance);
        }
        if index >= self.page_count || page.len() != self.storage.page_size_exec() {
            return Err(StorageError::OutOfRange);
        }
        self.slots.set(index as usize, Some(to_owned(page)));
        self.dirty.set(index as usize, true);
        assert(self.pages() =~= old(self).pages().update(index as int, page@));
        Ok(())
    }

    /// Persists every dirty page and folds all pages into the new `State`:
    /// the pages that are not all zero, by ascending index, each as its index
    /// and content hash. The instance is then committed.
    pub fn commit(&mut self) -> (r: Result<State, StorageError>)
        requires
            old(self).wf(),
        ensures
            final(self).wf(),
            final(self).page_count() == old(self).page_count(),
            final(self).storage_view().scope() == old(self).storage_view().scope(),
            final(self).storage_view().page_size() == old(self).storage_view().page_size(),
            old(self).status() != InstanceStatus::Open ==> r == Err::<State, StorageError>(StorageError::FinalizedInstance)
                && *final(self) == *old(self),
            old(self).status() == InstanceStatus::Open ==> {
                &&& r matches Ok(s) && s@ == state_of_pages(old(self).pages())
                &&& final(self).status() == InstanceStatus::Committed
                &&& final(self).pages() == old(self).pages()
                &&& forall|i: int| 0 <= i < old(self).page_count() ==> !#[trigger] final(self).is_dirty(i)
                &&& forall|i: int| 0 <= i < old(self).page_count() ==>
                    #[trigger] final(self).storage_view().stored_hash(i as u32) == if old(self).is_dirty(i) {
                        Some(page_hash_spec(old(self).pages()[i]))
                    } else {
                        old(self).storage_view().stored_hash(i as u32)
                    }
                &&& forall|i: int| 0 <= i < old(self).page_count() && old(self).is_dirty(i) ==> {
                    &&& final(self).storage_view().kv_view().contains_key(
                        blob_key_spec(page_hash_spec(#[trigger] old(self).pages()[i])),
                    )
                    &&& page_hash_spec(final(self).storage_view().page(i as u32)) == page_hash_spec(old(self).pages()[i])
                }
            },
    {
        if self.status != InstanceStatus::Open {
            return Err(StorageError::FinalizedInstance);
        }
        let ghost pages0 = self.pages();
        let ghost storage0 = self.storage;
        let n = self.page_count;
        let mut i: u32 = 0;
        while i < n
            invariant
                self.wf(),
                n == self.page_count,
                0 <= i <= n,
                self.pages() == pages0,
                self.storage == storage0,
                self.dirty@ == old(self).dirty@,
                self.status == InstanceStatus::Open,
                forall|j: int| 0 <= j < i ==> #[trigger] self.slots@[j] is Some,
            decreases n - i,
        {
            self.load(i);
            i = i + 1;
        }
        proof {
            assert forall|j: int| 0 <= j < n implies (#[trigger] self.slots@[j] matches Some(p) && p@ == pages0[j]) by {
                assert(self.page_at(j) == self.pages()[j]);
            }
        }
        let mut entries: Vec<(u32, Vec<u8>)> = Vec::new();
        let mut k: u32 = 0;
        while k < n
            invariant
                self.wf(),
                n == self.page_count,
                0 <= k <= n,
                pages0.len() == n,
                forall|j: int| 0 <= j < n ==> (#[trigger] self.slots@[j] matches Some(p) && p@ == pages0[j]),
                entries.deep_view() == page_entries(pages0.take(k as int)),
            decreases n - k,
        {
            match &self.slots[k as usize] {
                Some(p) => {
                    let ghost before = entries.deep_view();
                    if !is_zero(p.as_slice()) {
                        let h = page_hash(p.as_slice());
                        let ghost hv = h@;
                        let ghost prev = entries@;
                        entries.push((k, h));
                        assert(entries.deep_view()[before.len() as int] == (k, hv));
                        assert forall|j: int| 0 <= j < before.len() implies entries.deep_view()[j] == before[j] by {
                            assert(entries@[j] == prev[j]);
                        }
                        assert(entries.deep_view() =~= before.push((k, page_hash_spec(pages0[k as int]))));
                    }
                    assert(pages0.take(k + 1).drop_last() =~= pages0.take(k as int));
                    assert(pages0.take(k + 1).last() == pages0[k as int]);
                },
                None => {},
            }
            k = k + 1;
        }
        assert(pages0.take(n as int) =~= pages0);
        let state = fold_state(&entries);
        let mut w: u32 = 0;
        while w < n
            invariant
                self.wf(),
                n == self.page_count,
                0 <= w <= n,
                pages0.len() == n,
                self.dirty@.len() == n,
                forall|j: int| 0 <= j < w ==> !#[trigger] self.dirty@[j],
                forall|j: int| w <= j < n ==> #[trigger] self.dirty@[j] == old(self).dirty@[j],
                forall|j: int| 0 <= j < n ==> (#[trigger] self.slots@[j] matches Some(p) && p@ == pages0[j]),
                self.storage.scope() == storage0.scope(),
                self.storage.page_size() == storage0.page_size(),
                forall|j: int| 0 <= j < w ==> #[trigger] self.storage.stored_hash(j as u32) == if old(self).dirty@[j] {
                    Some(page_hash_spec(pages0[j]))
                } else {
                    storage0.stored_hash(j as u32)
                },
                forall|j: int| w <= j < n ==> #[trigger] self.storage.stored_hash(j as u32) == storage0.stored_hash(j as u32),
                forall|j: int| 0 <= j < w && old(self).dirty@[j] ==> self.storage.kv_view().contains_key(
                    blob_key_spec(page_hash_spec(#[trigger] pages0[j])),
                ),
            decreases n - w,
        {
            if self.dirty[w as usize] {
                let ghost st = self.storage;
                match &self.slots[w as usize] {
                    Some(p) => {
                        self.storage.write_page(w, p.as_slice());
                        proof {
                            let sc = st.scope();
                            assert forall|j: int| 0 <= j < n && j != w implies #[trigger] self.storage.stored_hash(j as u32) == st.stored_hash(j as u32) by {
                                lemma_index_key_not_blob_key(sc, j as u32, page_hash_spec(p@));
                                if index_key_spec(sc, j as u32) == index_key_spec(sc, w) {
                                    lemma_index_key_injective(sc, j as u32, sc, w);
                                }
                            }
                        }
                    },
                    None => {},
                }
                self.dirty.set(w as usize, false);
            }
            w = w + 1;
        }
        self.status = InstanceStatus::Committed;
        assert(self.pages() =~= pages0);
        proof {
            assert forall|i: int| 0 <= i < n && old(self).dirty@[i] implies page_hash_spec(self.storage.page(i as u32))
                == page_hash_spec(#[trigger] pages0[i]) by {
                self.storage.lemma_page_has_stored_hash(i as u32);
            }
        }
        Ok(state)
    }

    /// Drops every cached page without persisting anything; the instance is
    /// then discarded.
    pub fn discard(&mut self) -> (r: Result<(), StorageError>)
        requires
            old(self).wf(),
        ensures
            final(self).wf(),
            final(self).storage_view() == old(self).storage_view(),
            final(self).page_count() == old(self).page_count(),
            old(self).status() != InstanceStatus::Open ==> r == Err::<(), StorageError>(StorageError::FinalizedInstance)
                && *final(self) == *old(self),
            old(self).status() == InstanceStatus::Open ==> r is Ok && final(self).status() == InstanceStatus::Discarded,
    {
        if self.status != InstanceStatus::Open {
            return Err(StorageError::FinalizedInstance);
        }
        let n = self.page_count;
        let mut i: u32 = 0;
        while i < n
            invariant
                self.wf(),
                n == self.page_count,
                0 <= i <= n,
                self.storage == old(self).storage,
            decreases n - i,
        {
            self.dirty.set(i as usize, false);
            self.slots.set(i as usize, None);
            i = i + 1;
        }
        self.status = InstanceStatus::Discarded;
        Ok(())
    }

    /// The storage below the cache, handed back to open another instance over it.
    pub fn into_storage(self) -> (r: PagesStorage)
        requires
            self.wf(),
        ensures
            r == self.storage_view(),
            r.wf(),
    {
        self.storage
    }
}

} // verus!
