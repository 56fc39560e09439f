use vstd::prelude::*;
use crate::bytes::to_owned;
use crate::error::StorageError;
use crate::hashing::{blob_key_spec, lemma_zero_pages_state, page_hash_spec, state_of_pages, zero_page_spec};
use crate::state::zeros_spec;
use crate::page_cache::{InstanceStatus, PageCache};
use crate::pages_storage::PagesStorage;
use crate::state::State;

verus! {

/// `page` with the bytes from `offset` on replaced by `bytes`.
pub open spec fn splice_spec(page: Seq<u8>, offset: int, bytes: Seq<u8>) -> Seq<u8> {
    page.subrange(0, offset).add(bytes).add(page.subrange(offset + bytes.len(), page.len() as int))
}

/// Whether a slice at `offset` of `length` bytes lies within a page of `page_size` bytes.
pub open spec fn slice_fits(offset: int, length: int, page_size: int) -> bool {
    offset + length <= page_size
}

/// Reading back a range just written gives the bytes written; the page keeps
/// its length, and its bytes outside the range.
pub proof fn lemma_write_then_read(page: Seq<u8>, offset: int, bytes: Seq<u8>)
    requires
        0 <= offset,
        offset + bytes.len() <= page.len(),
    ensures
        splice_spec(page, offset, bytes).len() == page.len(),
        splice_spec(page, offset, bytes).subrange(offset, offset + bytes.len()) == bytes,
        forall|i: int|
            0 <= i < page.len() && !(offset <= i < offset + bytes.len()) ==> #[trigger] splice_spec(page, offset, bytes)[i] == page[i],
{
    assert(splice_spec(page, offset, bytes).subrange(offset, offset + bytes.len()) =~= bytes);
}

/// The pages after the slice writes `writes`, each (page index, offset, bytes),
/// applied in order to `pages`.
pub open spec fn apply_writes(pages: Seq<Seq<u8>>, writes: Seq<(int, int, Seq<u8>)>) -> Seq<Seq<u8>>
    decreases writes.len(),
{
    if writes.len() == 0 {
        pages
    } else {
        let w = writes.last();
        let before = apply_writes(pages, writes.drop_last());
        before.update(w.0, splice_spec(before[w.0], w.1, w.2))
    }
}

/// Committing an instance in which nothing was written, over a contract scope
/// where no page was ever written, gives the all-zero state.
pub proof fn lemma_fresh_scope_state(storage: PagesStorage, page_count: nat)
    requires
        forall|i: u32| #[trigger] storage.page(i) == zero_page_spec(storage.page_size()),
    ensures
        state_of_pages(Seq::new(page_count, |i: int| storage.page(i as u32))) == zeros_spec(),
{
    let pages = Seq::new(page_count, |i: int| storage.page(i as u32));
    assert forall|i: int| 0 <= i < pages.len() implies crate::hashing::is_zero_spec(#[trigger] pages[i]) by {
        assert(pages[i] == storage.page(i as u32));
    }
    lemma_zero_pages_state(pages);
}

/// The state depends on the pages alone: the same slice writes applied to
/// the same starting pages in two independent instances commit to the same state.
pub proof fn lemma_same_writes_same_state(
    start_a: Seq<Seq<u8>>,
    start_b: Seq<Seq<u8>>,
    writes: Seq<(int, int, Seq<u8>)>,
)
    requires
        start_a == start_b,
    ensures
        apply_writes(start_a, writes) == apply_writes(start_b, writes),
        state_of_pages(apply_writes(start_a, writes)) == state_of_pages(apply_writes(start_b, writes)),
{
}

/// Overwrites `page` from `offset` on with `bytes`.
fn overwrite(page: &mut Vec<u8>, offset: usize, bytes: &[u8])
    requires
        offset + bytes@.len() <= old(page)@.len(),
    ensures
        final(page)@ == splice_spec(old(page)@, offset as int, bytes@),
{
    let n = page.len();
    let mut j: usize = 0;
    while j < bytes.len()
        invariant
            n == old(page)@.len(),
            0 <= j <= bytes@.len(),
            offset + bytes@.len() <= old(page)@.len(),
            page@ == splice_spec(old(page)@, offset as int, bytes@.take(j as int)).add(
                old(page)@.subrange(offset + j, offset + bytes@.len()),
            ).take(old(page)@.len() as int),
            page@.len() == old(page)@.len(),
        decreases bytes@.len() - j,
    {
        page.set(offset + j, bytes[j]);
        assert(page@ =~= splice_spec(old(page)@, offset as int, bytes@.take(j + 1)).add(
            old(page)@.subrange(offset + j + 1, offset + bytes@.len()),
        ).take(old(page)@.len() as int));
        j = j + 1;
    }
    assert(bytes@.take(bytes@.len() as int) =~= bytes@);
    assert(page@ =~= splice_spec(old(page)@, offset as int, bytes@));
}

/// The byte-range layer over a `PageCache`: pages are copied into local
/// buffers on first touch, and slices are read and written there. On commit
/// the whole buffer of every written page goes down to the page cache.
pub struct PageSliceCache {
    cache: PageCache,
    buffers: Vec<Option<Vec<u8>>>,
    dirty: Vec<bool>,
    status: InstanceStatus,
}

impl PageSliceCache {
    /// The storage at the bottom.
    pub closed spec fn storage_view(&self) -> PagesStorage {
        self.cache.storage_view()
    }

    /// The number of pages the instance covers.
    pub closed spec fn page_count(&self) -> nat {
        self.cache.page_count()
    }

    /// The capacity of each page, in bytes.
    pub closed spec fn page_size(&self) -> nat {
        self.cache.page_size()
    }

    /// Where the instance stands.
    pub closed spec fn status(&self) -> InstanceStatus {
        self.status
    }

    /// Whether page `i` was written in this instance.
    pub closed spec fn is_dirty(&self, i: int) -> bool {
        self.dirty@[i]
    }

    /// What page `i` holds as seen through this instance.
    pub closed spec fn page_at(&self, i: int) -> Seq<u8> {
        match self.buffers@[i] {
            Some(b) => b@,
            None => self.cache.pages()[i],
        }
    }

    /// The pages as seen through this instance.
    pub open spec fn pages(&self) -> Seq<Seq<u8>> {
        Seq::new(self.page_count(), |i: int| self.page_at(i))
    }

    /// Buffers cover every page with the page size; only a buffered page is
    /// dirty; a page dirty below is dirty here; an open instance sits on an
    /// open cache.
    pub closed spec fn wf(&self) -> bool {
        &&& self.cache.wf()
        &&& self.buffers@.len() == self.cache.page_count()
        &&& self.dirty@.len() == self.cache.page_count()
        &&& forall|i: int|
            0 <= i < self.cache.page_count() ==> (#[trigger] self.buffers@[i] matches Some(b) ==> b@.len()
                == self.cache.page_size())
        &&& forall|i: int| 0 <= i < self.cache.page_count() ==> #[trigger] self.dirty@[i] ==> self.buffers@[i] is Some
        &&& forall|i: int| 0 <= i < self.cache.page_count() ==> #[trigger] self.cache.is_dirty(i) ==> self.dirty@[i]
        &&& forall|i: int|
            0 <= i < self.cache.page_count() ==> (#[trigger] self.buffers@[i] matches Some(b) ==> (!self.dirty@[i]
                ==> b@ == self.cache.pages()[i]))
        &&& self.status == InstanceStatus::Open ==> self.cache.status() == InstanceStatus::Open
        &&& self.status == InstanceStatus::Open ==> forall|i: int| 0 <= i < self.cache.page_count() ==> !#[trigger] self.cache.is_dirty(i)
    }

    /// Every page seen through a well-formed instance has the page size.
    pub proof fn lemma_pages_len(&self)
        requires
            self.wf(),
        ensures
            forall|i: int| 0 <= i < self.page_count() ==> #[trigger] self.pages()[i].len() == self.page_size(),
    {
        self.cache.lemma_pages_len();
        assert forall|i: int| 0 <= i < self.page_count() implies #[trigger] self.pages()[i].len() == self.page_size() by {
            assert(self.cache.pages()[i].len() == self.page_size());
        }
    }

    /// An open instance over `storage`, for pages `0 .. page_count`: each page
    /// reads as the storage holds it.
    pub fn open(storage: PagesStorage, page_count: u32) -> (r: PageSliceCache)
        requires
            storage.wf(),
        ensures
            r.wf(),
            r.storage_view() == storage,
            r.page_count() == page_count,
            r.page_size() == storage.page_size(),
            r.status() == InstanceStatus::Open,
            r.pages() == Seq::new(page_count as nat, |i: int| storage.page(i as u32)),
            forall|i: int| 0 <= i < page_count ==> !#[trigger] r.is_dirty(i),
    {
        let cache = PageCache::new(storage, page_count);
        let mut buffers: Vec<Option<Vec<u8>>> = Vec::new();
        let mut dirty: Vec<bool> = Vec::new();
        let mut i: u32 = 0;
        while i < page_count
            invariant
                0 <= i <= page_count,
                buffers@.len() == i,
                dirty@.len() == i,
                forall|j: int| 0 <= j < i ==> #[trigger] buffers@[j] is None,
                forall|j: int| 0 <= j < i ==> !#[trigger] dirty@[j],
            decreases page_count - i,
        {
            buffers.push(None);
            dirty.push(false);
            i = i + 1;
        }
        let r = PageSliceCache { cache, buffers, dirty, status: InstanceStatus::Open };
        assert(r.pages() =~= Seq::new(page_count as nat, |i: int| storage.page(i as u32)));
        r
    }

    /// The number of pages the instance covers.
    pub fn page_count_exec(&self) -> (r: u32)
        ensures
            r == self.page_count(),
    {
        self.cache.page_count_exec()
    }

    /// The capacity of each page, in bytes.
    pub fn page_size_exec(&self) -> (r: usize)
        ensures
            r == self.page_size(),
    {
        self.cache.page_size_exec()
    }

    /// Whether the instance still accepts operations.
    pub fn is_open(&self) -> (r: bool)
        ensures
            r == (self.status() == InstanceStatus::Open),
    {
        self.status == InstanceStatus::Open
    }

    /// Copies page `index` into its buffer, unless it is there already.
    fn materialize(&mut self, index: u32)
        requires
            old(self).wf(),
            old(self).status() == InstanceStatus::Open,
            index < old(self).page_count(),
        ensures
            final(self).wf(),
            final(self).pages() == old(self).pages(),
            final(self).storage_view() == old(self).storage_view(),
            final(self).page_count() == old(self).page_count(),
            final(self).page_size() == old(self).page_size(),
            final(self).status() == old(self).status(),
            final(self).dirty@ == old(self).dirty@,
            final(self).buffers@[index as int] is Some,
    {
        let present = self.buffers[index as usize].is_some();
        if !present {
            let r = self.cache.read(index);
            match r {
                Ok(page) => {
                    proof {
                        old(self).cache.lemma_pages_len();
                    }
                    self.buffers.set(index as usize, Some(page));
                    assert(self.pages() =~= old(self).pages());
                },
                Err(_) => {},
            }
        }
    }

    /// The `length` bytes of page `index` from `offset` on.
    pub fn read_slice(&mut self, index: u32, offset: usize, length: usize) -> (r: Result<Vec<u8>, StorageError>)
        requires
            old(self).wf(),
        ensures
            final(self).wf(),
            final(self).pages() == old(self).pages(),
            final(self).storage_view() == old(self).storage_view(),
            final(self).page_count() == old(self).page_count(),
            final(self).page_size() == old(self).page_size(),
            final(self).status() == old(self).status(),
            forall|i: int| #[trigger] final(self).is_dirty(i) == old(self).is_dirty(i),
            old(self).status() != InstanceStatus::Open ==> r == Err::<Vec<u8>, StorageError>(StorageError::FinalizedInstance),
            old(self).status() == InstanceStatus::Open && (index >= old(self).page_count()
                || !slice_fits(offset as int, length as int, old(self).page_size() as int))
                ==> r == Err::<Vec<u8>, StorageError>(StorageError::OutOfRange),
            old(self).status() == InstanceStatus::Open && index < old(self).page_count()
                && slice_fits(offset as int, length as int, old(self).page_size() as int) ==> (r matches Ok(b)
                && b@ == old(self).pages()[index as int].subrange(offset as int, offset + length)),
    {
        if self.status != InstanceStatus::Open {
            return Err(StorageError::FinalizedInstance);
        }
        let size = self.cache.page_size_exec();
        if index >= self.cache.page_count_exec() || offset > size || length > size - offset {
            return Err(StorageError::OutOfRange);
        }
        self.materialize(index);
        proof {
            self.lemma_pages_len();
        }
        let mut out: Vec<u8> = Vec::new();
        match &self.buffers[index as usize] {
            Some(buf) => {
                assert(buf@ == self.pages()[index as int]);
                let blen = buf.len();
                let mut j: usize = 0;
                while j < length
                    invariant
                        blen == buf@.len(),
                        0 <= j <= length,
                        offset + length <= buf@.len(),
                        out@ == buf@.subrange(offset as int, offset + j),
                    decreases length - j,
                {
                    out.push(buf[offset + j]);
                    assert(out@ =~= buf@.subrange(offset as int, offset + j + 1));
                    j = j + 1;
                }
            },
            None => {},
        }
        Ok(out)
    }

    /// Writes `bytes` into page `index` from `offset` on, and marks the page dirty.
    pub fn write_slice(&mut self, index: u32, offset: usize, bytes: &[u8]) -> (r: Result<(), StorageError>)
        requires
            old(self).wf(),
        ensures
            final(self).wf(),
            final(self).storage_view() == old(self).storage_view(),
            final(self).page_count() == old(self).page_count(),
            final(self).page_size() == old(self).page_size(),
            final(self).status() == old(self).status(),
            old(self).status() != InstanceStatus::Open ==> r == Err::<(), StorageError>(StorageError::FinalizedInstance),
            old(self).status() == InstanceStatus::Open && (index >= old(self).page_count()
                || !slice_fits(offset as int, bytes@.len() as int, old(self).page_size() as int))
                ==> r == Err::<(), StorageError>(StorageError::OutOfRange),
            r is Ok <==> (old(self).status() == InstanceStatus::Open && index < old(self).page_count()
                && slice_fits(offset as int, bytes@.len() as int, old(self).page_size() as int)),
            r is Ok ==> final(self).pages() == old(self).pages().update(
                index as int,
                splice_spec(old(self).pages()[index as int], offset as int, bytes@),
            ),
            r is Ok ==> forall|i: int| 0 <= i < old(self).page_count() ==> #[trigger] final(self).is_dirty(i) == (i == index || old(self).is_dirty(i)),
            r is Err ==> final(self).pages() == old(self).pages(),
            r is Err ==> forall|i: int| #[trigger] final(self).is_dirty(i) == old(self).is_dirty(i),
    {
        if self.status != InstanceStatus::Open {
            return Err(StorageError::FinalizedInstance);
        }
        let size = self.cache.page_size_exec();
        if index >= self.cache.page_count_exec() || offset > size || bytes.len() > size - offset {
            return Err(StorageError::OutOfRange);
        }
        self.materialize(index);
        proof {
            self.lemma_pages_len();
        }
        let ghost mid = self.pages();
        let mut buf = match &self.buffers[index as usize] {
            Some(b) => to_owned(b.as_slice()),
            None => Vec::new(),
        };
        assert(buf@ == mid[index as int]);
        overwrite(&mut buf, offset, bytes);
        proof {
            lemma_write_then_read(mid[index as int], offset as int, bytes@);
        }
        self.buffers.set(index as usize, Some(buf));
        self.dirty.set(index as usize, true);
        assert(self.pages() =~= old(self).pages().update(
            index as int,
            splice_spec(old(self).pages()[index as int], offset as int, bytes@),
        ));
        Ok(())
    }

    /// Pushes the whole buffer of every page written in this instance down to
    /// the page cache, then commits that: every written page is persisted and
    /// the pages fold into the new `State`. The instance is then committed.
    pub fn commit(&mut self) -> (r: Result<State, StorageError>)
        requires
            old(self).wf(),
        ensures
            final(self).wf(),
            final(self).page_count() == old(self).page_count(),
            final(self).storage_view().scope() == old(self).storage_view().scope(),
            final(self).storage_view().page_size() == old(self).storage_view().page_size(),
            old(self).status() != InstanceStatus::Open ==> r == Err::<State, StorageError>(StorageError::FinalizedInstance)
                && *final(self) == *old(self),
            old(self).status() == InstanceStatus::Open ==> {
                &&& r matches Ok(s) && s@ == state_of_pages(old(self).pages())
                &&& final(self).status() == InstanceStatus::Committed
                &&& forall|i: int| 0 <= i < old(self).page_count() ==>
                    #[trigger] final(self).storage_view().stored_hash(i as u32) == if old(self).is_dirty(i) {
                        Some(page_hash_spec(old(self).pages()[i]))
                    } else {
                        old(self).storage_view().stored_hash(i as u32)
                    }
                &&& forall|i: int| 0 <= i < old(self).page_count() && old(self).is_dirty(i) ==> {
                    &&& final(self).storage_view().kv_view().contains_key(
                        blob_key_spec(page_hash_spec(#[trigger] old(self).pages()[i])),
                    )
                    &&& page_hash_spec(final(self).storage_view().page(i as u32)) == page_hash_spec(old(self).pages()[i])
                }
            },
    {
        if self.status != InstanceStatus::Open {
            return Err(StorageError::FinalizedInstance);
        }
        proof {
            self.lemma_pages_len();
        }
        let ghost pages0 = self.pages();
        let n = self.cache.page_count_exec();
        self.status = InstanceStatus::Committed;
        let mut i: u32 = 0;
        while i < n
            invariant
                self.wf(),
                self.status == InstanceStatus::Committed,
                self.cache.status() == InstanceStatus::Open,
                n == self.cache.page_count(),
                0 <= i <= n,
                self.buffers == old(self).buffers,
                self.dirty == old(self).dirty,
                self.pages() == pages0,
                self.cache.storage_view() == old(self).cache.storage_view(),
                forall|j: int| 0 <= j < i ==> #[trigger] self.dirty@[j] ==> self.cache.pages()[j] == pages0[j],
                forall|j: int| 0 <= j < n ==> #[trigger] self.cache.is_dirty(j) == (old(self).cache.is_dirty(j) || (j < i && self.dirty@[j])),
            decreases n - i,
        {
            if self.dirty[i as usize] {
                let ghost c0 = self.cache;
                match &self.buffers[i as usize] {
                    Some(b) => {
                        let _ = self.cache.write(i, b.as_slice());
                        proof {
                            assert(b@ == pages0[i as int]);
                            assert forall|j: int|
                                0 <= j < n && #[trigger] self.buffers@[j] is Some && !self.dirty@[j]
                                implies (self.buffers@[j] matches Some(bj) && bj@ == self.cache.pages()[j]) by {
                                assert(j != i);
                                assert(self.cache.pages()[j] == c0.pages()[j]);
                            }
                            assert(self.pages() =~= pages0);
                        }
                    },
                    None => {},
                }
            }
            i = i + 1;
        }
        proof {
            assert forall|j: int| 0 <= j < n implies #[trigger] self.cache.pages()[j] == pages0[j] by {
                if !self.dirty@[j] {
                    assert(self.page_at(j) == pages0[j]);
                }
            }
            assert(self.cache.pages() =~= pages0);
        }
        self.cache.commit()
    }

    /// Drops every buffer without pushing anything down; the storage is left
    /// as it was. The instance is then discarded.
    pub fn discard(&mut self) -> (r: Result<(), StorageError>)
        requires
            old(self).wf(),
        ensures
            final(self).wf(),
            final(self).storage_view() == old(self).storage_view(),
            final(self).page_count() == old(self).page_count(),
            old(self).status() != InstanceStatus::Open ==> r == Err::<(), StorageError>(StorageError::FinalizedInstance)
                && *final(self) == *old(self),
            old(self).status() == InstanceStatus::Open ==> r is Ok && final(self).status() == InstanceStatus::Discarded,
    {
        if self.status != InstanceStatus::Open {
            return Err(StorageError::FinalizedInstance);
        }
        let n = self.cache.page_count_exec();
        let mut i: u32 = 0;
        while i < n
            invariant
                self.wf(),
                n == self.cache.page_count(),
                0 <= i <= n,
                self.cache == old(self).cache,
                self.status == InstanceStatus::Open,
            decreases n - i,
        {
            self.dirty.set(i as usize, false);
            self.buffers.set(i as usize, None);
            i = i + 1;
        }
        self.status = InstanceStatus::Discarded;
        Ok(())
    }

    /// The storage at the bottom, handed back to open another instance over it.
    pub fn into_storage(self) -> (r: PagesStorage)
        requires
            self.wf(),
        ensures
            r == self.storage_view(),
            r.wf(),
    {
        self.cache.into_storage()
    }
}

} // verus!
