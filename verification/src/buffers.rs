//! The fixed pool of receive buffers.
//!
//! Buffers live in a [`slab::Slab`], which hands out small integer keys and
//! reuses the key released last. The pool adds a hard capacity on top: once
//! `capacity` buffers are live, `allocate` reports exhaustion instead of
//! growing, so the storage is never moved while the kernel may still be
//! writing into it, and every index fits the 16-bit field of a correlation
//! tag.
//!
//! The pool's view is the map from the live indices to the bytes that each
//! buffer holds. The library itself never changes the bytes of a live
//! buffer: they change only through the write access that `buffer_mut` hands
//! out, which is how the program around the library lets the kernel fill a
//! buffer.

use vstd::prelude::*;

verus! {

/// Size in bytes of every receive buffer.
pub const BUFFER_SIZE: usize = 1024;

/// Number of buffers in a pool made by [`BufferSlab::new`].
pub const POOL_CAPACITY: u16 = 2048;

/// `slab::Slab`, declared to the verifier as an opaque type. What a slab
/// holds is spoken of through `slab_values`, `slab_next_key` and
/// `slab_slot_count`.
#[verifier::external_type_specification]
#[verifier::external_body]
#[verifier::reject_recursive_types(T)]
pub struct ExSlab<T>(slab::Slab<T>);

/// What a slab holds: under each occupied key, the bytes of the value
/// stored there.
pub uninterp spec fn slab_values(s: slab::Slab<[u8; BUFFER_SIZE]>) -> Map<usize, Seq<u8>>;

/// The key that the slab's next insertion will use.
pub uninterp spec fn slab_next_key(s: slab::Slab<[u8; BUFFER_SIZE]>) -> usize;

/// The number of slots, occupied or vacant, that the slab has created so far.
pub uninterp spec fn slab_slot_count(s: slab::Slab<[u8; BUFFER_SIZE]>) -> usize;

/// The contents of an empty pool.
pub open spec fn no_buffers() -> Map<usize, Seq<u8>> {
    Map::empty()
}

/// `slab::Slab::with_capacity`: an empty slab with no slots yet, whose first
/// key will be 0. The bound keeps the reservation far below the allocation
/// limit at which the call would panic.
#[verifier::external_body]
fn slab_with_capacity(capacity: usize) -> (s: slab::Slab<[u8; BUFFER_SIZE]>)
    requires
        capacity <= 0x1_0000,
    ensures
        slab_values(s) == no_buffers(),
        slab_next_key(s) == 0,
        slab_slot_count(s) == 0,
{
    slab::Slab::with_capacity(capacity)
}

/// `slab::Slab::len`: the number of occupied keys.
#[verifier::external_body]
fn slab_len(s: &slab::Slab<[u8; BUFFER_SIZE]>) -> (n: usize)
    ensures
        n == slab_values(*s).dom().len(),
{
    s.len()
}

/// `slab::Slab::insert`: stores the value under the key that was next and
/// leaves every other value as it was. A new slot is created exactly when
/// that key is the slot count; otherwise a vacant slot is reused. The key
/// that is next afterwards is vacant again, and it names a slot that does
/// not exist yet only when every existing slot is occupied. The bound on the
/// slot count keeps the backing vector below the size at which growing it
/// would panic.
#[verifier::external_body]
fn slab_insert(s: &mut slab::Slab<[u8; BUFFER_SIZE]>, val: [u8; BUFFER_SIZE]) -> (key: usize)
    requires
        slab_slot_count(*old(s)) < 0x1_0000,
    ensures
        key == slab_next_key(*old(s)),
        slab_values(*final(s)) == slab_values(*old(s)).insert(key, val@),
        slab_slot_count(*final(s)) == if key == slab_slot_count(*old(s)) {
            key + 1
        } else {
            slab_slot_count(*old(s)) as int
        },
        !slab_values(*final(s)).contains_key(slab_next_key(*final(s))),
        slab_next_key(*final(s)) <= slab_slot_count(*final(s)),
        slab_next_key(*final(s)) == slab_slot_count(*final(s)) ==> slab_values(
            *final(s),
        ).dom().len() == slab_slot_count(*final(s)),
{
    s.insert(val)
}

/// `slab::Slab::remove`: vacates the key, returns the value that was stored
/// under it, leaves every other value as it was, and makes the key the next
/// one to be used. The slot stays. The call panics on a vacant key, which the
/// precondition rules out.
#[verifier::external_body]
fn slab_remove(s: &mut slab::Slab<[u8; BUFFER_SIZE]>, key: usize) -> (val: [u8; BUFFER_SIZE])
    requires
        slab_values(*old(s)).contains_key(key),
    ensures
        val@ == slab_values(*old(s))[key],
        slab_values(*final(s)) == slab_values(*old(s)).remove(key),
        slab_next_key(*final(s)) == key,
        slab_slot_count(*final(s)) == slab_slot_count(*old(s)),
{
    s.remove(key)
}

/// `slab::Slab::get`: the value under an occupied key, nothing for any other
/// key.
#[verifier::external_body]
fn slab_get(s: &slab::Slab<[u8; BUFFER_SIZE]>, key: usize) -> (r: Option<&[u8; BUFFER_SIZE]>)
    ensures
        r is Some <==> slab_values(*s).contains_key(key),
        r is Some ==> r.unwrap()@ == slab_values(*s)[key],
{
    s.get(key)
}

/// `slab::Slab::get_mut`: as `get`, with write access to the value. What the
/// caller leaves in the value is what the slab holds under the key
/// afterwards; the other values, the keys, the next key and the slots are
/// untouched.
#[verifier::external_body]
fn slab_get_mut(s: &mut slab::Slab<[u8; BUFFER_SIZE]>, key: usize) -> (r: Option<
    &mut [u8; BUFFER_SIZE],
>)
    ensures
        r is Some <==> slab_values(*old(s)).contains_key(key),
        r is Some ==> (*r.unwrap())@ == slab_values(*old(s))[key] && slab_values(*final(s))
            == slab_values(*old(s)).insert(key, (*final(r.unwrap()))@),
        r is None ==> slab_values(*final(s)) == slab_values(*old(s)),
        slab_next_key(*final(s)) == slab_next_key(*old(s)),
        slab_slot_count(*final(s)) == slab_slot_count(*old(s)),
{
    s.get_mut(key)
}

/// The contents of a buffer that was just allocated: `BUFFER_SIZE` zeros.
pub open spec fn zeroed() -> Seq<u8> {
    Seq::new(BUFFER_SIZE as nat, |i: int| 0u8)
}

/// The pool has as many live buffers as it may hold.
#[derive(Clone, Copy, Debug, PartialEq, Eq, Structural)]
pub struct PoolExhausted;

/// A pool of at most `capacity` receive buffers, each `BUFFER_SIZE` bytes,
/// identified by indices below `capacity`.
pub struct BufferSlab {
    slots: slab::Slab<[u8; BUFFER_SIZE]>,
    capacity: u16,
}

impl View for BufferSlab {
    type V = Map<usize, Seq<u8>>;

    /// The live buffers: index to bytes.
    closed spec fn view(&self) -> Map<usize, Seq<u8>> {
        slab_values(self.slots)
    }
}

impl BufferSlab {
    /// The most buffers that may be live at once.
    pub closed spec fn capacity_spec(&self) -> u16 {
        self.capacity
    }

    /// The index that the next successful `allocate` hands out.
    pub closed spec fn next_index(&self) -> usize {
        slab_next_key(self.slots)
    }

    /// The pool's representation is consistent: occupied keys lie below the
    /// slot count, which the capacity bounds; the next key is vacant, and it
    /// names a slot that does not exist yet only when every slot is occupied.
    pub closed spec fn wf(&self) -> bool {
        &&& slab_values(self.slots).dom().finite()
        &&& forall|k: usize|
            slab_values(self.slots).contains_key(k) ==> k < slab_slot_count(self.slots)
        &&& !slab_values(self.slots).contains_key(slab_next_key(self.slots))
        &&& slab_next_key(self.slots) <= slab_slot_count(self.slots)
        &&& slab_next_key(self.slots) == slab_slot_count(self.slots) ==> slab_values(
            self.slots,
        ).dom().len() == slab_slot_count(self.slots)
        &&& slab_slot_count(self.slots) <= self.capacity
        &&& slab_values(self.slots).dom().len() <= self.capacity
        &&& forall|k: usize|
            slab_values(self.slots).contains_key(k) ==> (#[trigger] slab_values(
                self.slots,
            )[k]).len() == BUFFER_SIZE
    }

    /// What well-formedness means for the visible state: finitely many live
    /// indices, all below the capacity and no more than it allows, each with
    /// a buffer of `BUFFER_SIZE` bytes; the next index is not live, and lies
    /// below the capacity while there is room.
    pub proof fn lemma_wf(&self)
        requires
            self.wf(),
        ensures
            self@.dom().finite(),
            self@.dom().len() <= self.capacity_spec(),
            forall|k: usize| self@.contains_key(k) ==> k < self.capacity_spec(),
            forall|k: usize| self@.contains_key(k) ==> (#[trigger] self@[k]).len() == BUFFER_SIZE,
            !self@.contains_key(self.next_index()),
            self@.dom().len() < self.capacity_spec() ==> self.next_index() < self.capacity_spec(),
    {
    }

    /// An empty pool for up to `capacity` buffers.
    pub fn with_capacity(capacity: u16) -> (pool: BufferSlab)
        ensures
            pool.wf(),
            pool@ == no_buffers(),
            pool.capacity_spec() == capacity,
            pool.next_index() == 0,
    {
        BufferSlab { slots: slab_with_capacity(capacity as usize), capacity }
    }

    /// An empty pool of the default size.
    pub fn new() -> (pool: BufferSlab)
        ensures
            pool.wf(),
            pool@ == no_buffers(),
            pool.capacity_spec() == POOL_CAPACITY,
            pool.next_index() == 0,
    {
        BufferSlab::with_capacity(POOL_CAPACITY)
    }

    /// The most buffers that may be live at once.
    #[verifier::when_used_as_spec(capacity_spec)]
    pub fn capacity(&self) -> (c: u16)
        ensures
            c == self.capacity_spec(),
    {
        self.capacity
    }

    /// Number of live buffers.
    pub fn len(&self) -> (n: usize)
        ensures
            n == self@.dom().len(),
    {
        slab_len(&self.slots)
    }

    /// Whether the slot with this index is live.
    pub fn is_allocated(&self, index: u16) -> (b: bool)
        ensures
            b == self@.contains_key(index as usize),
    {
        slab_get(&self.slots, index as usize).is_some()
    }

    /// Takes a free slot and returns its index, or reports exhaustion when
    /// `capacity` buffers are already live. The pool never grows. The index
    /// handed out is never one that is live; its buffer holds zeros, and the
    /// bytes of every other buffer are as they were.
    pub fn allocate(&mut self) -> (r: Result<u16, PoolExhausted>)
        requires
            old(self).wf(),
        ensures
            final(self).wf(),
            final(self).capacity_spec() == old(self).capacity_spec(),
            match r {
                Ok(index) => {
                    &&& old(self)@.dom().len() < old(self).capacity_spec()
                    &&& index == old(self).next_index()
                    &&& !old(self)@.contains_key(index as usize)
                    &&& final(self)@ == old(self)@.insert(index as usize, zeroed())
                },
                Err(_) => {
                    &&& old(self)@.dom().len() >= old(self).capacity_spec()
                    &&& final(self)@ == old(self)@
                    &&& final(self).next_index() == old(self).next_index()
                },
            },
    {
        if slab_len(&self.slots) >= self.capacity as usize {
            return Err(PoolExhausted);
        }
        let fresh = [0u8; BUFFER_SIZE];
        assert(fresh@ =~= zeroed());
        let key = slab_insert(&mut self.slots, fresh);
        Ok(key as u16)
    }

    /// Frees a live slot. Its index is the one the next `allocate` hands out;
    /// the bytes of every other buffer are as they were. Releasing an index
    /// that is not live is a caller's error, excluded by the precondition.
    pub fn release(&mut self, index: u16)
        requires
            old(self).wf(),
            old(self)@.contains_key(index as usize),
        ensures
            final(self).wf(),
            final(self).capacity_spec() == old(self).capacity_spec(),
            final(self)@ == old(self)@.remove(index as usize),
            final(self).next_index() == index,
    {
        let _ = slab_remove(&mut self.slots, index as usize);
    }

    /// The storage of a live slot, with the bytes that the slot holds;
    /// `None` for an index that is not live.
    pub fn buffer(&self, index: u16) -> (r: Option<&[u8; BUFFER_SIZE]>)
        ensures
            r is Some <==> self@.contains_key(index as usize),
            r is Some ==> r.unwrap()@ == self@[index as usize],
    {
        slab_get(&self.slots, index as usize)
    }

    /// Write access to the storage of a live slot, `None` for an index that is
    /// not live. What the caller leaves there is what the slot holds
    /// afterwards. The other buffers and the set of live slots are
    /// untouched.
    pub fn buffer_mut(&mut self, index: u16) -> (r: Option<&mut [u8; BUFFER_SIZE]>)
        requires
            old(self).wf(),
        ensures
            final(self).wf(),
            r is Some <==> old(self)@.contains_key(index as usize),
            r is Some ==> (*r.unwrap())@ == old(self)@[index as usize] && final(self)@ == old(
                self,
            )@.insert(index as usize, (*final(r.unwrap()))@),
            r is None ==> final(self)@ == old(self)@,
            final(self)@.dom() == old(self)@.dom(),
            final(self).capacity_spec() == old(self).capacity_spec(),
            final(self).next_index() == old(self).next_index(),
    {
        slab_get_mut(&mut self.slots, index as usize)
    }
}

/// A call on a pool that changed it: an allocation together with the index it
/// handed out, or the release of an index.
pub enum PoolCall {
    Allocated(u16),
    Released(u16),
}

/// What the contracts of `allocate` and `release` say of one call that leads
/// from the live set `before` to the live set `after`: an allocation hands
/// out an index that is not live and makes it live; a release is asked only
/// for a live index, so that nothing is freed twice, and makes it free.
pub open spec fn call_follows_contract(
    before: Set<usize>,
    call: PoolCall,
    after: Set<usize>,
) -> bool {
    match call {
        PoolCall::Allocated(index) => !before.contains(index as usize) && after == before.insert(
            index as usize,
        ),
        PoolCall::Released(index) => before.contains(index as usize) && after == before.remove(
            index as usize,
        ),
    }
}

/// A pool's life: the live sets it went through, and between each two of them
/// a call that follows its contract.
pub open spec fn history(states: Seq<Set<usize>>, calls: Seq<PoolCall>) -> bool {
    &&& states.len() == calls.len() + 1
    &&& forall|k: int|
        0 <= k < calls.len() ==> call_follows_contract(states[k], #[trigger] calls[k], states[k + 1])
}

/// An index that was handed out stays live until it is released.
pub proof fn lemma_stays_live(
    states: Seq<Set<usize>>,
    calls: Seq<PoolCall>,
    j: int,
    k: int,
    index: u16,
)
    requires
        history(states, calls),
        0 <= j < k <= calls.len(),
        calls[j] == PoolCall::Allocated(index),
        forall|m: int| j < m < k ==> calls[m] != PoolCall::Released(index),
    ensures
        states[k].contains(index as usize),
    decreases k - j,
{
    assert(call_follows_contract(states[k - 1], calls[k - 1], states[k]));
    if k - 1 > j {
        lemma_stays_live(states, calls, j, k - 1, index);
    }
}

/// Whatever sequence of allocations and releases a pool goes through, as long
/// as nothing is released twice, it never hands out an index that an earlier
/// allocation still holds: between two allocations that return the same
/// index lies a release of that index.
pub proof fn lemma_no_index_handed_out_twice(
    states: Seq<Set<usize>>,
    calls: Seq<PoolCall>,
    j: int,
    k: int,
    index: u16,
)
    requires
        history(states, calls),
        0 <= j < k < calls.len(),
        calls[j] == PoolCall::Allocated(index),
        calls[k] == PoolCall::Allocated(index),
    ensures
        exists|m: int| j < m < k && calls[m] == PoolCall::Released(index),
{
    if forall|m: int| j < m < k ==> calls[m] != PoolCall::Released(index) {
        lemma_stays_live(states, calls, j, k, index);
    }
}

} // verus!
