//! The buffer that collects generated machine code, one byte at a time.
//!
//! A region has a fixed size, a whole number of pages, and starts out as
//! zeroes. Bytes are appended at a cursor and may be read and patched in
//! place afterwards. The buffer never grows: a byte that does not fit is
//! refused. The region keeps the bytes only; it checks nothing about them, so
//! mapping them executable and jumping into them is for code that has
//! validated every instruction it emitted.

use vstd::prelude::*;

verus! {

/// Bytes in one page of a region.
pub const PAGE_SIZE: usize = 4096;

/// Why a region could not be made or could not take a byte.
#[derive(Debug, Clone, Copy, PartialEq, Eq, Structural)]
pub enum RegionError {
    /// The memory for the region could not be had.
    AllocationFailure,
    /// The memory could not be made executable.
    PermissionFailure,
    /// The region is full.
    CapacityExceeded,
}

/// A run of `len` zero bytes.
pub open spec fn zeroes(len: nat) -> Seq<u8> {
    Seq::new(len, |i: int| 0u8)
}

/// The pages that a region made from `len` initial bytes has: as many as the
/// bytes need, and one more.
pub open spec fn pages_for(len: nat) -> nat {
    (len + PAGE_SIZE - 1) as nat / (PAGE_SIZE as nat) + 1
}

/// What a region holds: every byte of it, and where the next one goes.
pub struct RegionView {
    pub bytes: Seq<u8>,
    pub offset: nat,
}

impl RegionView {
    /// A whole, positive number of pages, and a cursor inside them or at
    /// their end.
    pub open spec fn wf(self) -> bool {
        &&& self.bytes.len() >= PAGE_SIZE
        &&& self.bytes.len() % (PAGE_SIZE as nat) == 0
        &&& self.offset <= self.bytes.len()
    }

    /// The bytes that the region has room for.
    pub open spec fn capacity(self) -> nat {
        self.bytes.len()
    }

    /// The pages of the region.
    pub open spec fn pages(self) -> nat {
        self.bytes.len() / (PAGE_SIZE as nat)
    }

    /// No further byte can be appended.
    pub open spec fn full(self) -> bool {
        self.offset >= self.bytes.len()
    }

    /// A region of `pages` pages as it is made: all zero, nothing appended.
    pub open spec fn fresh(pages: nat) -> RegionView {
        RegionView { bytes: zeroes(pages * (PAGE_SIZE as nat)), offset: 0 }
    }

    /// The region after `op` is appended: written at the cursor, which moves
    /// on by one. A full region stays as it is.
    pub open spec fn push(self, op: u8) -> RegionView {
        if self.full() {
            self
        } else {
            RegionView { bytes: self.bytes.update(self.offset as int, op), offset: self.offset + 1 }
        }
    }

    /// The region after the bytes of `ops` are appended one by one.
    pub open spec fn push_all(self, ops: Seq<u8>) -> RegionView
        decreases ops.len(),
    {
        if ops.len() == 0 {
            self
        } else {
            self.push_all(ops.drop_last()).push(ops.last())
        }
    }

    /// The region made from the initial bytes `ops`: they stand at its start,
    /// zeroes fill the rest of its pages, and the cursor is behind them.
    pub open spec fn holding(ops: Seq<u8>) -> RegionView {
        RegionView {
            bytes: ops + zeroes((pages_for(ops.len()) * PAGE_SIZE - ops.len()) as nat),
            offset: ops.len(),
        }
    }
}

/// Bytes appended where there is room for all of them stand in the region in
/// their order, from the old cursor on, and leave every other byte as it
/// was; the cursor ends behind them.
pub proof fn lemma_push_all(region: RegionView, ops: Seq<u8>)
    requires
        region.wf(),
        region.offset + ops.len() <= region.capacity(),
    ensures
        ({
            let after = region.push_all(ops);
            &&& after.wf()
            &&& after.offset == region.offset + ops.len()
            &&& after.bytes.len() == region.bytes.len()
            &&& after.bytes.subrange(region.offset as int, after.offset as int) == ops
            &&& forall|i: int|
                0 <= i < region.offset || after.offset <= i < region.bytes.len()
                    ==> after.bytes[i] == region.bytes[i]
        }),
    decreases ops.len(),
{
    let after = region.push_all(ops);
    if ops.len() > 0 {
        lemma_push_all(region, ops.drop_last());
        let before = region.push_all(ops.drop_last());
        assert(after == before.push(ops.last()));
        assert(after.bytes.subrange(region.offset as int, after.offset as int) =~= ops) by {
            assert forall|i: int| 0 <= i < ops.len() implies after.bytes[region.offset + i]
                == ops[i] by {
                if i < ops.len() - 1 {
                    assert(before.bytes.subrange(region.offset as int, before.offset as int)[i]
                        == ops.drop_last()[i]);
                }
            }
        }
    } else {
        assert(after.bytes.subrange(region.offset as int, after.offset as int) =~= ops);
    }
}

/// A region of one page takes a page of bytes, each to be read where it was
/// appended, and is full then: a further byte leaves it as it is.
pub proof fn lemma_one_page(ops: Seq<u8>, extra: u8)
    requires
        ops.len() == PAGE_SIZE,
    ensures
        ({
            let filled = RegionView::fresh(1).push_all(ops);
            &&& filled.bytes == ops
            &&& filled.full()
            &&& filled.push(extra) == filled
        }),
{
    let filled = RegionView::fresh(1).push_all(ops);
    lemma_push_all(RegionView::fresh(1), ops);
    assert(filled.bytes =~= filled.bytes.subrange(0, filled.offset as int));
}

/// To make a region from initial bytes is to make a new region of
/// `pages_for` pages and append them one by one: there is room for all, and
/// the region starts with them, byte for byte.
pub proof fn lemma_holding(ops: Seq<u8>)
    ensures
        RegionView::holding(ops) == RegionView::fresh(pages_for(ops.len())).push_all(ops),
        RegionView::holding(ops).wf(),
        RegionView::holding(ops).pages() == pages_for(ops.len()),
        RegionView::holding(ops).bytes.subrange(0, ops.len() as int) == ops,
{
    let pages = pages_for(ops.len());
    let fresh = RegionView::fresh(pages);
    let after = fresh.push_all(ops);
    let made = RegionView::holding(ops);
    assert(pages * PAGE_SIZE >= ops.len() + 1 && (pages * PAGE_SIZE) % (PAGE_SIZE as int) == 0
        && (pages * PAGE_SIZE) / (PAGE_SIZE as int) == pages) by (nonlinear_arith)
        requires
            pages == (ops.len() + PAGE_SIZE - 1) / (PAGE_SIZE as int) + 1,
            PAGE_SIZE == 4096,
    ;
    lemma_push_all(fresh, ops);
    assert(after.bytes =~= made.bytes) by {
        assert forall|i: int| 0 <= i < ops.len() implies after.bytes[i] == ops[i] by {
            assert(after.bytes.subrange(0, after.offset as int)[i] == ops[i]);
        }
    }
    assert(made.bytes.subrange(0, ops.len() as int) =~= ops);
}

/// The pages of a region made from `len` initial bytes.
fn page_count(len: usize) -> (pages: usize)
    ensures
        pages == pages_for(len as nat),
        pages >= 1,
{
    if len % PAGE_SIZE == 0 {
        len / PAGE_SIZE + 1
    } else {
        len / PAGE_SIZE + 2
    }
}

/// Asks for the memory of `pages` pages: empty storage with room for them,
/// or `None` where so many pages have no size in bytes or the memory cannot
/// be had.
fn reserve(pages: usize) -> (storage: Option<Vec<u8>>)
    ensures
        storage matches Some(held) ==> held@.len() == 0 && pages * PAGE_SIZE <= usize::MAX,
{
    if pages > usize::MAX / PAGE_SIZE {
        return None;
    }
    let mut storage: Vec<u8> = Vec::new();
    match storage.try_reserve(pages * PAGE_SIZE) {
        Ok(_) => Some(storage),
        Err(_) => None,
    }
}

/// A fixed-size buffer for machine code. A region has one owner: it cannot be
/// copied, and its bytes are lent out only by reference.
#[derive(Debug)]
pub struct MappedRegion {
    region: Vec<u8>,
    offset: usize,
    pages: usize,
}

impl View for MappedRegion {
    type V = RegionView;

    closed spec fn view(&self) -> RegionView {
        RegionView { bytes: self.region@, offset: self.offset as nat }
    }
}

impl MappedRegion {
    #[verifier::type_invariant]
    spec fn inv(self) -> bool {
        &&& self.pages >= 1
        &&& self.region@.len() == self.pages * PAGE_SIZE
        &&& self.offset <= self.region@.len()
    }

    /// A region of `pages` pages, zero-filled. It is refused where `pages` is
    /// zero, where so many pages have no size in bytes, and where the memory
    /// cannot be had: `with_storage` says which it is, given the reservation.
    pub fn new(pages: usize) -> (made: Result<MappedRegion, RegionError>)
        ensures
            match made {
                Ok(region) => region@ == RegionView::fresh(pages as nat) && region@.wf(),
                Err(e) => e == RegionError::AllocationFailure,
            },
            pages == 0 || pages * PAGE_SIZE > usize::MAX ==> made is Err,
    {
        MappedRegion::with_storage(pages, reserve(pages))
    }

    /// A region of `pages` pages in the storage reserved for it, zero-filled
    /// whatever the storage held; `None` stands for storage that could not be
    /// had. This is `new` from the reservation on.
    pub fn with_storage(pages: usize, storage: Option<Vec<u8>>) -> (made: Result<
        MappedRegion,
        RegionError,
    >)
        ensures
            made is Ok <==> storage is Some && pages > 0 && pages * PAGE_SIZE <= usize::MAX,
            match made {
                Ok(region) => region@ == RegionView::fresh(pages as nat) && region@.wf(),
                Err(e) => e == RegionError::AllocationFailure,
            },
    {
        if pages == 0 || pages > usize::MAX / PAGE_SIZE {
            return Err(RegionError::AllocationFailure);
        }
        match storage {
            Some(mut region) => {
                let size = pages * PAGE_SIZE;
                region.clear();
                region.resize(size, 0u8);
                proof {
                    assert(region@ =~= zeroes(pages as nat * (PAGE_SIZE as nat)));
                }
                Ok(MappedRegion { region: region, offset: 0, pages: pages })
            },
            None => Err(RegionError::AllocationFailure),
        }
    }

    /// A region that starts with the bytes of `ops`, as if each had been
    /// appended to a new region of `pages_for(ops.len())` pages. It is
    /// refused where such a region is: `from_storage` says when, given the
    /// reservation.
    pub fn from(ops: &[u8]) -> (made: Result<MappedRegion, RegionError>)
        ensures
            match made {
                Ok(region) => {
                    &&& region@ == RegionView::holding(ops@)
                    &&& region@.wf()
                    &&& region@.bytes.subrange(0, ops@.len() as int) == ops@
                },
                Err(e) => e == RegionError::AllocationFailure,
            },
            pages_for(ops@.len()) * PAGE_SIZE > usize::MAX ==> made is Err,
    {
        let storage = reserve(page_count(ops.len()));
        MappedRegion::from_storage(ops, storage)
    }

    /// A region that starts with the bytes of `ops`, in the storage reserved
    /// for it; `None` stands for storage that could not be had, and then
    /// there is no region and nothing is appended. This is `from` from the
    /// reservation on.
    pub fn from_storage(ops: &[u8], storage: Option<Vec<u8>>) -> (made: Result<
        MappedRegion,
        RegionError,
    >)
        ensures
            made is Ok <==> storage is Some && pages_for(ops@.len()) * PAGE_SIZE <= usize::MAX,
            match made {
                Ok(region) => {
                    &&& region@ == RegionView::holding(ops@)
                    &&& region@.wf()
                    &&& region@.bytes.subrange(0, ops@.len() as int) == ops@
                },
                Err(e) => e == RegionError::AllocationFailure,
            },
    {
        let pages = page_count(ops.len());
        let mut region = match MappedRegion::with_storage(pages, storage) {
            Ok(region) => region,
            Err(e) => {
                return Err(e);
            },
        };
        proof {
            lemma_holding(ops@);
        }
        let pushed = region.push_all(ops);
        assert(pushed is Ok);
        Ok(region)
    }

    /// Appends `op`: writes it at the cursor and moves the cursor on by one.
    /// A full region refuses the byte and stays as it is.
    pub fn push(&mut self, op: u8) -> (pushed: Result<(), RegionError>)
        ensures
            old(self)@.wf(),
            final(self)@.wf(),
            final(self)@ == old(self)@.push(op),
            match pushed {
                Ok(_) => !old(self)@.full(),
                Err(e) => old(self)@.full() && e == RegionError::CapacityExceeded,
            },
    {
        proof {
            use_type_invariant(&*self);
        }
        let offset = self.offset;
        if offset >= self.region.len() {
            return Err(RegionError::CapacityExceeded);
        }
        self.region[offset] = op;
        self.offset = offset + 1;
        Ok(())
    }

    /// Appends the bytes of `ops` in their order, where there is room for all
    /// of them; where there is not, none is appended.
    pub fn push_all(&mut self, ops: &[u8]) -> (pushed: Result<(), RegionError>)
        ensures
            final(self)@.wf(),
            match pushed {
                Ok(_) => {
                    &&& old(self)@.offset + ops@.len() <= old(self)@.capacity()
                    &&& final(self)@ == old(self)@.push_all(ops@)
                    &&& final(self)@.offset == old(self)@.offset + ops@.len()
                    &&& final(self)@.bytes == old(self)@.bytes.subrange(
                        0,
                        old(self)@.offset as int,
                    ) + ops@ + old(self)@.bytes.subrange(
                        final(self)@.offset as int,
                        old(self)@.capacity() as int,
                    )
                },
                Err(e) => {
                    &&& old(self)@.offset + ops@.len() > old(self)@.capacity()
                    &&& e == RegionError::CapacityExceeded
                    &&& final(self)@ == old(self)@
                },
            },
    {
        proof {
            use_type_invariant(&*self);
        }
        let len = ops.len();
        if len > self.region.len() - self.offset {
            return Err(RegionError::CapacityExceeded);
        }
        let mut i: usize = 0;
        while i < len
            invariant
                i <= len == ops@.len(),
                old(self)@.wf(),
                old(self)@.offset + len <= old(self)@.capacity(),
                self@ == old(self)@.push_all(ops@.subrange(0, i as int)),
            decreases len - i,
        {
            proof {
                lemma_push_all(old(self)@, ops@.subrange(0, i as int));
                assert(ops@.subrange(0, i + 1).drop_last() =~= ops@.subrange(0, i as int));
            }
            let pushed = self.push(ops[i]);
            assert(pushed is Ok);
            i = i + 1;
        }
        proof {
            assert(ops@.subrange(0, len as int) =~= ops@);
            lemma_push_all(old(self)@, ops@);
            assert(self@.bytes =~= old(self)@.bytes.subrange(0, old(self)@.offset as int) + ops@
                + old(self)@.bytes.subrange(self@.offset as int, old(self)@.capacity() as int)) by {
                assert forall|i: int| 0 <= i < ops@.len() implies self@.bytes[old(self)@.offset
                    + i] == ops@[i] by {
                    assert(self@.bytes.subrange(
                        old(self)@.offset as int,
                        self@.offset as int,
                    )[i] == ops@[i]);
                }
            }
        }
        Ok(())
    }

    /// The byte at `idx`, to be patched in place: what is written through the
    /// reference replaces that byte and nothing else.
    pub fn index_mut(&mut self, idx: usize) -> (byte: &mut u8)
        requires
            idx < old(self)@.capacity(),
        ensures
            *byte == old(self)@.bytes[idx as int],
            final(self)@.bytes == old(self)@.bytes.update(idx as int, *final(byte)),
            final(self)@.offset == old(self)@.offset,
    {
        proof {
            use_type_invariant(&*self);
        }
        &mut self.region[idx]
    }

    /// Where the next byte goes; the number of bytes appended so far.
    pub fn offset(&self) -> (offset: usize)
        ensures
            offset == self@.offset,
            self@.wf(),
    {
        proof {
            use_type_invariant(self);
        }
        self.offset
    }

    /// The pages of the region.
    pub fn pages(&self) -> (pages: usize)
        ensures
            pages == self@.pages(),
            self@.wf(),
    {
        proof {
            use_type_invariant(self);
        }
        self.pages
    }

    /// The bytes that the region has room for.
    pub fn capacity(&self) -> (capacity: usize)
        ensures
            capacity == self@.capacity(),
            self@.wf(),
    {
        proof {
            use_type_invariant(self);
        }
        self.region.len()
    }

    /// Every byte of the region, appended or not, lent out for reading.
    pub fn as_slice(&self) -> (bytes: &[u8])
        ensures
            bytes@ == self@.bytes,
            self@.wf(),
    {
        proof {
            use_type_invariant(self);
        }
        self.region.as_slice()
    }
}

impl core::ops::Index<usize> for MappedRegion {
    type Output = u8;

    /// The byte at `idx`, appended or not.
    fn index(&self, idx: usize) -> (byte: &u8)
        ensures
            *byte == self@.bytes[idx as int],
    {
        proof {
            use_type_invariant(self);
        }
        &self.region[idx]
    }
}

impl vstd::std_specs::core::IndexSpecImpl<usize> for MappedRegion {
    /// An index must lie inside the region.
    open spec fn index_req(&self, index: &usize) -> bool {
        *index < self@.capacity()
    }
}

} // verus!
