use vstd::prelude::*;
use std::collections::HashMap;
use crate::bytes::append;
use crate::error::StorageError;

verus! {

broadcast use vstd::std_specs::hash::group_hash_axioms;

/// A byte region that contract code fills through host calls.
pub enum Buffer {
    /// Open for writes: the bytes so far, and how many it may hold.
    Mutable { bytes: Vec<u8>, capacity: u32 },
    /// Frozen: the bytes can only be read.
    ReadOnly { bytes: Vec<u8> },
}

impl Buffer {
    /// The bytes held.
    pub open spec fn bytes_spec(&self) -> Seq<u8> {
        match self {
            Buffer::Mutable { bytes, .. } => bytes@,
            Buffer::ReadOnly { bytes } => bytes@,
        }
    }

    /// Whether the buffer was frozen.
    pub open spec fn is_frozen(&self) -> bool {
        self is ReadOnly
    }

    /// The bytes held.
    pub fn bytes(&self) -> (r: &Vec<u8>)
        ensures
            r@ == self.bytes_spec(),
    {
        match self {
            Buffer::Mutable { bytes, .. } => bytes,
            Buffer::ReadOnly { bytes } => bytes,
        }
    }
}

/// The buffers of one invocation, by id: the context that every buffer host
/// call is handed.
pub struct BufferTable {
    buffers: HashMap<u32, Buffer>,
}

impl View for BufferTable {
    type V = Map<u32, Buffer>;

    closed spec fn view(&self) -> Map<u32, Buffer> {
        self.buffers@
    }
}

impl BufferTable {
    /// A table with no buffer.
    pub fn new() -> (r: BufferTable)
        ensures
            r@ == Map::<u32, Buffer>::empty(),
    {
        BufferTable { buffers: HashMap::new() }
    }
}

/// The buffer with id `buf_id`, if there is one.
pub fn wasmer_data_buffer(table: &BufferTable, buf_id: u32) -> (r: Option<&Buffer>)
    ensures
        r is Some <==> table@.contains_key(buf_id),
        r matches Some(b) ==> *b == table@[buf_id],
{
    table.buffers.get(&buf_id)
}

/// Creates an empty writable buffer `buf_id` that may hold `capacity` bytes.
pub fn buffer_create(table: &mut BufferTable, buf_id: u32, capacity: u32) -> (r: Result<(), StorageError>)
    ensures
        old(table)@.contains_key(buf_id) ==> r == Err::<(), StorageError>(StorageError::AlreadyExists)
            && final(table)@ == old(table)@,
        !old(table)@.contains_key(buf_id) ==> r is Ok && final(table)@ == old(table)@.insert(
            buf_id,
            Buffer::Mutable { bytes: final(table)@[buf_id]->Mutable_bytes, capacity },
        ) && (final(table)@[buf_id]->Mutable_bytes)@.len() == 0,
{
    if table.buffers.contains_key(&buf_id) {
        return Err(StorageError::AlreadyExists);
    }
    table.buffers.insert(buf_id, Buffer::Mutable { bytes: Vec::new(), capacity });
    Ok(())
}

/// Removes buffer `buf_id`.
pub fn buffer_kill(table: &mut BufferTable, buf_id: u32) -> (r: Result<(), StorageError>)
    ensures
        !old(table)@.contains_key(buf_id) ==> r == Err::<(), StorageError>(StorageError::UnknownId)
            && final(table)@ == old(table)@,
        old(table)@.contains_key(buf_id) ==> r is Ok && final(table)@ == old(table)@.remove(buf_id),
{
    if !table.buffers.contains_key(&buf_id) {
        return Err(StorageError::UnknownId);
    }
    table.buffers.remove(&buf_id);
    Ok(())
}

/// Turns buffer `buf_id` read-only, keeping its bytes; a frozen buffer stays as it is.
pub fn buffer_freeze(table: &mut BufferTable, buf_id: u32) -> (r: Result<(), StorageError>)
    ensures
        !old(table)@.contains_key(buf_id) ==> r == Err::<(), StorageError>(StorageError::UnknownId)
            && final(table)@ == old(table)@,
        old(table)@.contains_key(buf_id) ==> {
            &&& r is Ok
            &&& final(table)@.dom() == old(table)@.dom()
            &&& forall|k: u32| k != buf_id && #[trigger] old(table)@.contains_key(k) ==> final(table)@[k] == old(table)@[k]
            &&& final(table)@[buf_id].is_frozen()
            &&& final(table)@[buf_id].bytes_spec() == old(table)@[buf_id].bytes_spec()
        },
{
    match table.buffers.remove(&buf_id) {
        None => Err(StorageError::UnknownId),
        Some(Buffer::Mutable { bytes, .. }) => {
            table.buffers.insert(buf_id, Buffer::ReadOnly { bytes });
            assert(table.buffers@.dom() =~= old(table)@.dom());
            Ok(())
        },
        Some(Buffer::ReadOnly { bytes }) => {
            table.buffers.insert(buf_id, Buffer::ReadOnly { bytes });
            assert(table.buffers@.dom() =~= old(table)@.dom());
            Ok(())
        },
    }
}

/// After a write of `data` to a buffer holding `before`, the buffer's bytes
/// from the old length on are exactly `data`, and the bytes before are kept.
pub proof fn lemma_buffer_write_then_read(before: Seq<u8>, data: Seq<u8>)
    ensures
        before.add(data).subrange(before.len() as int, (before.len() + data.len()) as int) == data,
        before.add(data).take(before.len() as int) == before,
{
    assert(before.add(data).subrange(before.len() as int, (before.len() + data.len()) as int) =~= data);
    assert(before.add(data).take(before.len() as int) =~= before);
}

/// Appends `data` to buffer `buf_id`.
pub fn buffer_write(table: &mut BufferTable, buf_id: u32, data: &[u8]) -> (r: Result<(), StorageError>)
    ensures
        !old(table)@.contains_key(buf_id) ==> r == Err::<(), StorageError>(StorageError::UnknownId),
        old(table)@.contains_key(buf_id) && old(table)@[buf_id].is_frozen() ==> r == Err::<(), StorageError>(StorageError::FrozenBuffer),
        old(table)@.contains_key(buf_id) && !old(table)@[buf_id].is_frozen()
            && old(table)@[buf_id].bytes_spec().len() + data@.len() > old(table)@[buf_id]->Mutable_capacity
            ==> r == Err::<(), StorageError>(StorageError::OutOfRange),
        old(table)@.contains_key(buf_id) && !old(table)@[buf_id].is_frozen()
            && old(table)@[buf_id].bytes_spec().len() + data@.len() <= old(table)@[buf_id]->Mutable_capacity
            ==> r is Ok,
        r is Err ==> final(table)@ == old(table)@,
        r is Ok ==> final(table)@[buf_id].bytes_spec() == old(table)@[buf_id].bytes_spec().add(data@),
        r is Ok ==> old(table)@.contains_key(buf_id) && !old(table)@[buf_id].is_frozen() && final(table)@ == old(table)@.insert(
            buf_id,
            Buffer::Mutable {
                bytes: final(table)@[buf_id]->Mutable_bytes,
                capacity: old(table)@[buf_id]->Mutable_capacity,
            },
        ) && (final(table)@[buf_id]->Mutable_bytes)@ == old(table)@[buf_id].bytes_spec().add(data@),
{
    match table.buffers.get(&buf_id) {
        None => Err(StorageError::UnknownId),
        Some(Buffer::ReadOnly { .. }) => Err(StorageError::FrozenBuffer),
        Some(Buffer::Mutable { bytes, capacity }) => {
            let cap = *capacity;
            if data.len() > cap as usize || bytes.len() > cap as usize - data.len() {
                return Err(StorageError::OutOfRange);
            }
            let mut grown: Vec<u8> = Vec::new();
            append(&mut grown, bytes.as_slice());
            append(&mut grown, data);
            assert(grown@ =~= bytes@.add(data@));
            table.buffers.insert(buf_id, Buffer::Mutable { bytes: grown, capacity: cap });
            Ok(())
        },
    }
}

/// The bytes of buffer `buf_id`.
pub fn buffer_read(table: &BufferTable, buf_id: u32) -> (r: Result<Vec<u8>, StorageError>)
    ensures
        !table@.contains_key(buf_id) ==> r == Err::<Vec<u8>, StorageError>(StorageError::UnknownId),
        table@.contains_key(buf_id) ==> (r matches Ok(b) && b@ == table@[buf_id].bytes_spec()),
{
    match table.buffers.get(&buf_id) {
        None => Err(StorageError::UnknownId),
        Some(b) => {
            let mut out: Vec<u8> = Vec::new();
            append(&mut out, b.bytes().as_slice());
            assert(out@ =~= b.bytes_spec());
            Ok(out)
        },
    }
}

} // verus!
