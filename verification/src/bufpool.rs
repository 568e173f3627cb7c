//! A pool of reusable byte buffers for published payloads.
//!
//! A buffer taken from the pool reuses the storage of one given back
//! earlier, the latest first. Reused storage is not cleared: the bytes a
//! buffer held when it was given back show through, up to the new size.

use vstd::prelude::*;

verus! {

/// How many buffers a new pool makes room for.
pub const POOL_CAPACITY: usize = 1024;

/// `size` zero bytes.
pub open spec fn zeros(size: nat) -> Seq<u8> {
    Seq::new(size, |i: int| 0u8)
}

/// `bytes` cut or zero-extended to `size` bytes.
pub open spec fn resized(bytes: Seq<u8>, size: nat) -> Seq<u8> {
    if size <= bytes.len() {
        bytes.take(size as int)
    } else {
        bytes + zeros((size - bytes.len()) as nat)
    }
}

/// A byte buffer of fixed size, taken from a [`Pool`].
#[derive(Debug)]
pub struct Buffer(Vec<u8>);

impl View for Buffer {
    type V = Seq<u8>;

    closed spec fn view(&self) -> Seq<u8> {
        self.0@
    }
}

impl Buffer {
    /// The size of the buffer in bytes.
    pub fn len(&self) -> (size: usize)
        ensures
            size == self@.len(),
    {
        self.0.len()
    }

    /// The bytes of the buffer.
    pub fn as_slice(&self) -> (bytes: &[u8])
        ensures
            bytes@ == self@,
    {
        self.0.as_slice()
    }

    /// The bytes of the buffer, to be overwritten in place.
    pub fn as_mut_slice(&mut self) -> (bytes: &mut [u8])
        ensures
            bytes@ == old(self)@,
            final(bytes)@ == final(self)@,
    {
        self.0.as_mut_slice()
    }
}

/// The buffers waiting to be reused, the latest given back last.
pub struct Pool {
    list: Vec<Vec<u8>>,
}

impl View for Pool {
    type V = Seq<Seq<u8>>;

    closed spec fn view(&self) -> Seq<Seq<u8>> {
        Seq::new(self.list@.len(), |i: int| self.list@[i]@)
    }
}

impl Pool {
    /// An empty pool.
    pub fn new() -> (pool: Pool)
        ensures
            pool@ == Seq::<Seq<u8>>::empty(),
    {
        let pool = Pool { list: Vec::with_capacity(POOL_CAPACITY) };
        assert(pool@ =~= Seq::empty());
        pool
    }

    /// The number of buffers waiting to be reused.
    pub fn len(&self) -> (count: usize)
        ensures
            count == self@.len(),
    {
        self.list.len()
    }
}

/// Takes a buffer of `size` bytes from the pool.
///
/// An empty pool yields a new buffer of zeros. Otherwise the buffer given
/// back last leaves the pool, cut or zero-extended to `size`.
pub fn get_buffer(pool: &mut Pool, size: usize) -> (buffer: Buffer)
    ensures
        buffer@.len() == size,
        old(pool)@.len() == 0 ==> final(pool)@ == old(pool)@ && buffer@ == zeros(size as nat),
        old(pool)@.len() > 0 ==> final(pool)@ == old(pool)@.drop_last() && buffer@ == resized(
            old(pool)@.last(),
            size as nat,
        ),
{
    let ghost before = pool@;
    match pool.list.pop() {
        Some(mut bytes) => {
            let ghost stale = bytes@;
            assert(stale == before.last());
            assert(pool@ =~= before.drop_last());
            bytes.resize(size, 0);
            assert(bytes@ =~= resized(stale, size as nat));
            Buffer(bytes)
        },
        None => {
            let bytes: Vec<u8> = vec![0; size];
            assert(bytes@ =~= zeros(size as nat));
            assert(pool@ =~= before);
            Buffer(bytes)
        },
    }
}

/// Gives `buffer` back to the pool, contents and all.
pub fn put_buffer(pool: &mut Pool, buffer: Buffer)
    ensures
        final(pool)@ == old(pool)@.push(buffer@),
{
    let ghost before = pool@;
    pool.list.push(buffer.0);
    assert(pool@ =~= before.push(buffer@));
}

} // verus!
