//! The backing store as the engine sees it: a byte range of known length that is
//! read and written at explicit offsets. `MemStore` keeps the range in memory.

use vstd::prelude::*;
use vstd::slice::slice_subrange;

verus! {

/// Why a store operation did not happen.
#[derive(Debug, Clone, Copy, PartialEq, Eq, Structural)]
pub enum StoreError {
    /// The range reaches past the end of the store.
    OutOfBounds,
    /// The medium failed.
    Io,
}

/// `store` with `data` written over it from `offset` on.
pub open spec fn overwrite(store: Seq<u8>, offset: int, data: Seq<u8>) -> Seq<u8>
    recommends
        0 <= offset,
        offset + data.len() <= store.len(),
{
    store.subrange(0, offset) + data + store.subrange(offset + data.len(), store.len() as int)
}

/// Writing changes the bytes of the range to the data and no other byte.
pub proof fn lemma_overwrite(store: Seq<u8>, offset: int, data: Seq<u8>)
    requires
        0 <= offset,
        offset + data.len() <= store.len(),
    ensures
        overwrite(store, offset, data).len() == store.len(),
        overwrite(store, offset, data).subrange(offset, offset + data.len()) == data,
        forall|i: int|
            0 <= i < store.len() && !(offset <= i < offset + data.len()) ==> overwrite(
                store,
                offset,
                data,
            )[i] == store[i],
{
    assert(overwrite(store, offset, data).subrange(offset, offset + data.len()) =~= data);
}

/// Two writes to ranges that do not overlap leave, in either order, the same
/// store, and each range holds what was written to it.
pub proof fn lemma_disjoint_writes(
    store: Seq<u8>,
    first_at: int,
    first: Seq<u8>,
    second_at: int,
    second: Seq<u8>,
)
    requires
        0 <= first_at,
        0 <= second_at,
        first_at + first.len() <= store.len(),
        second_at + second.len() <= store.len(),
        first_at + first.len() <= second_at || second_at + second.len() <= first_at,
    ensures
        overwrite(overwrite(store, first_at, first), second_at, second) == overwrite(
            overwrite(store, second_at, second),
            first_at,
            first,
        ),
        overwrite(overwrite(store, first_at, first), second_at, second).subrange(
            first_at,
            first_at + first.len(),
        ) == first,
        overwrite(overwrite(store, first_at, first), second_at, second).subrange(
            second_at,
            second_at + second.len(),
        ) == second,
{
    let one = overwrite(overwrite(store, first_at, first), second_at, second);
    let other = overwrite(overwrite(store, second_at, second), first_at, first);
    lemma_overwrite(store, first_at, first);
    lemma_overwrite(store, second_at, second);
    assert(one =~= other);
    assert(one.subrange(first_at, first_at + first.len()) =~= first);
    assert(one.subrange(second_at, second_at + second.len()) =~= second);
}

/// A store held in memory. Its length never changes.
pub struct MemStore {
    data: Vec<u8>,
}

impl View for MemStore {
    type V = Seq<u8>;

    closed spec fn view(&self) -> Seq<u8> {
        self.data@
    }
}

impl MemStore {
    /// A store of `size` zero bytes.
    pub fn new(size: usize) -> (s: MemStore)
        ensures
            s@ == Seq::new(size as nat, |i: int| 0u8),
    {
        let data: Vec<u8> = vec![0u8; size];
        assert(data@ =~= Seq::new(size as nat, |i: int| 0u8));
        MemStore { data }
    }

    /// A store that holds `data`.
    pub fn from_bytes(data: Vec<u8>) -> (s: MemStore)
        ensures
            s@ == data@,
    {
        MemStore { data }
    }

    /// The length of the store in bytes.
    pub fn len(&self) -> (n: usize)
        ensures
            n == self@.len(),
    {
        self.data.len()
    }

    /// The bytes of the store.
    pub fn bytes(&self) -> (b: &[u8])
        ensures
            b@ == self@,
    {
        self.data.as_slice()
    }

    /// Whether `offset .. offset + length` lies inside the store.
    fn fits(&self, offset: u64, length: usize) -> (inside: bool)
        ensures
            inside == (offset + length <= self@.len()),
    {
        let n = self.data.len();
        length <= n && offset <= (n - length) as u64
    }

    /// The `length` bytes at `offset`. Nothing is read when the range reaches
    /// past the end.
    pub fn read_at(&self, offset: u64, length: u32) -> (r: Result<Vec<u8>, StoreError>)
        ensures
            r.is_ok() <==> offset + length <= self@.len(),
            r matches Ok(data) ==> data@ == self@.subrange(offset as int, offset + length),
            r matches Err(e) ==> e == StoreError::OutOfBounds,
    {
        if !self.fits(offset, length as usize) {
            return Err(StoreError::OutOfBounds);
        }
        let _ = self.data.len();
        let from = offset as usize;
        let mut out: Vec<u8> = Vec::new();
        out.extend_from_slice(slice_subrange(self.data.as_slice(), from, from + length as usize));
        assert(out@ =~= self@.subrange(offset as int, offset + length));
        Ok(out)
    }

    /// Writes `data` at `offset` and says how many bytes were written: all of
    /// them. Nothing is written when the range reaches past the end.
    pub fn write_at(&mut self, offset: u64, data: &[u8]) -> (r: Result<usize, StoreError>)
        ensures
            offset + data@.len() <= old(self)@.len() ==> r == Ok::<usize, StoreError>(
                data@.len() as usize,
            ) && final(self)@ == overwrite(old(self)@, offset as int, data@),
            offset + data@.len() > old(self)@.len() ==> r == Err::<usize, StoreError>(
                StoreError::OutOfBounds,
            ) && final(self)@ == old(self)@,
            final(self)@.len() == old(self)@.len(),
    {
        if !self.fits(offset, data.len()) {
            return Err(StoreError::OutOfBounds);
        }
        let _ = self.data.len();
        let from = offset as usize;
        let mut i: usize = 0;
        while i < data.len()
            invariant
                i <= data@.len(),
                from + data@.len() <= self.data@.len() <= usize::MAX,
                self.data@.len() == old(self)@.len(),
                self.data@ == overwrite(old(self)@, from as int, data@.subrange(0, i as int)),
            decreases data@.len() - i,
        {
            self.data.set(from + i, data[i]);
            assert(self.data@ =~= overwrite(
                old(self)@,
                from as int,
                data@.subrange(0, i + 1),
            ));
            i = i + 1;
        }
        assert(data@.subrange(0, i as int) =~= data@);
        Ok(data.len())
    }

    /// Makes what was written durable. In memory there is nothing to do.
    pub fn flush(&mut self) -> (r: Result<(), StoreError>)
        ensures
            r.is_ok(),
            final(self)@ == old(self)@,
    {
        Ok(())
    }
}

} // verus!
