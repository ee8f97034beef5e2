use vstd::prelude::*;

verus! {

/// Mathematical model of a buffer: the allocated capacity in bytes, the
/// valid bytes at the front of the storage, and the read/write cursor.
pub ghost struct BufModel {
    pub capacity: nat,
    pub data: Seq<u8>,
    pub pos: nat,
}

impl BufModel {
    /// The valid data fits in the allocation and the cursor stays inside
    /// the valid data.
    pub open spec fn inv(self) -> bool {
        self.data.len() <= self.capacity && self.pos <= self.data.len()
    }
}

/// The model of a freshly allocated buffer: no valid data, cursor at the
/// start.
pub open spec fn fresh_buf(capacity: nat) -> BufModel {
    BufModel { capacity, data: Seq::empty(), pos: 0 }
}

/// What `append` does to a buffer model: when the incoming bytes would not
/// fit, the allocation first grows by exactly the incoming size; the bytes
/// are then added after the existing valid data. The cursor is untouched.
pub open spec fn spec_append(m: BufModel, d: Seq<u8>) -> BufModel {
    BufModel {
        capacity: if m.data.len() + d.len() > m.capacity {
            m.capacity + d.len()
        } else {
            m.capacity
        },
        data: m.data + d,
        pos: m.pos,
    }
}

/// What `set_data` does to a buffer model: the valid data becomes exactly
/// the given bytes and the cursor returns to the start. The allocation is
/// untouched.
pub open spec fn spec_set_data(m: BufModel, d: Seq<u8>) -> BufModel {
    BufModel { capacity: m.capacity, data: d, pos: 0 }
}

/// What `clear` does to a buffer model: no valid data, cursor at the
/// start, allocation untouched.
pub open spec fn spec_clear(m: BufModel) -> BufModel {
    BufModel { capacity: m.capacity, data: Seq::empty(), pos: 0 }
}

/// Total size of a sequence of byte sequences.
pub open spec fn total_len(ds: Seq<Seq<u8>>) -> nat
    decreases ds.len(),
{
    if ds.len() == 0 {
        0
    } else {
        ds.first().len() + total_len(ds.drop_first())
    }
}

/// Concatenation of a sequence of byte sequences, in order.
pub open spec fn concat_all(ds: Seq<Seq<u8>>) -> Seq<u8>
    decreases ds.len(),
{
    if ds.len() == 0 {
        Seq::empty()
    } else {
        ds.first() + concat_all(ds.drop_first())
    }
}

/// The buffer model after appending each of the given byte sequences, in
/// order.
pub open spec fn append_all(m: BufModel, ds: Seq<Seq<u8>>) -> BufModel
    decreases ds.len(),
{
    if ds.len() == 0 {
        m
    } else {
        append_all(spec_append(m, ds.first()), ds.drop_first())
    }
}

/// Law: a sequence of appends whose total size fits in the free part of
/// the allocation causes no growth, and the valid data afterwards is the
/// prior data followed by every appended sequence, concatenated in order.
pub proof fn lemma_appends_within_capacity(m: BufModel, ds: Seq<Seq<u8>>)
    requires
        m.data.len() + total_len(ds) <= m.capacity,
    ensures
        append_all(m, ds).capacity == m.capacity,
        append_all(m, ds).data == m.data + concat_all(ds),
        append_all(m, ds).pos == m.pos,
    decreases ds.len(),
{
    if ds.len() == 0 {
        assert(append_all(m, ds).data =~= m.data + concat_all(ds));
    } else {
        let m1 = spec_append(m, ds.first());
        lemma_appends_within_capacity(m1, ds.drop_first());
        assert(append_all(m, ds).data =~= m.data + concat_all(ds));
    }
}

/// Law: an append whose bytes do not fit grows the capacity by exactly the
/// incoming size, and the valid data afterwards is still the pre-existing
/// bytes followed by the appended bytes.
pub proof fn lemma_append_grows_exactly(m: BufModel, d: Seq<u8>)
    requires
        m.data.len() + d.len() > m.capacity,
    ensures
        spec_append(m, d).capacity == m.capacity + d.len(),
        spec_append(m, d).data == m.data + d,
{
}

/// Law: after a clear the valid data is empty whatever it held before, and
/// a subsequent append starts writing at the front again.
pub proof fn lemma_clear_then_append(m: BufModel, d: Seq<u8>)
    ensures
        spec_clear(m).data == Seq::<u8>::empty(),
        spec_append(spec_clear(m), d).data == d,
{
    assert(spec_append(spec_clear(m), d).data =~= d);
}

/// Growth failure while appending. With the storage strategy used here a
/// failed allocation aborts the process instead, so this error is never
/// produced; the `Result` shape is kept so that callers have a single
/// recoverable-error path for appends.
#[derive(Debug)]
pub struct AllocError;

/// An exclusively-owned, heap-backed, growable byte region. `capacity`
/// bytes are allocated; the first `length` of them hold valid data; `pos`
/// is a cursor into the valid data for sequential consumers.
pub struct MBuf {
    storage: Vec<u8>,
    data_len: usize,
    pos: usize,
}

impl View for MBuf {
    type V = BufModel;

    closed spec fn view(&self) -> BufModel {
        BufModel {
            capacity: self.storage@.len(),
            data: self.storage@.subrange(0, self.data_len as int),
            pos: self.pos as nat,
        }
    }
}

impl MBuf {
    /// Well-formedness: the valid-data length is within the allocation and
    /// the cursor is within the valid data.
    pub closed spec fn wf(&self) -> bool {
        self.data_len <= self.storage@.len() && self.pos <= self.data_len
    }

    /// A well-formed buffer has a valid model.
    pub proof fn lemma_wf_inv(&self)
        requires
            self.wf(),
        ensures
            self@.inv(),
    {
    }

    /// Allocates a buffer of `capacity` bytes with no valid data. A zero
    /// capacity is degenerate and is ruled out.
    pub fn new(capacity: usize) -> (r: MBuf)
        requires
            capacity >= 1,
        ensures
            r.wf(),
            r@ == fresh_buf(capacity as nat),
    {
        let mut storage: Vec<u8> = Vec::new();
        while storage.len() < capacity
            invariant
                storage@.len() <= capacity,
            decreases capacity - storage@.len(),
        {
            storage.push(0u8);
        }
        let r = MBuf { storage, data_len: 0, pos: 0 };
        proof {
            assert(r@.data =~= Seq::<u8>::empty());
        }
        r
    }

    /// Total bytes of storage currently allocated.
    pub fn capacity(&self) -> (r: usize)
        ensures
            r == self@.capacity,
    {
        self.storage.len()
    }

    /// Number of valid bytes at the front of the storage.
    pub fn length(&self) -> (r: usize)
        requires
            self.wf(),
        ensures
            r == self@.data.len(),
    {
        self.data_len
    }

    /// The cursor position within the valid data.
    pub fn position(&self) -> (r: usize)
        ensures
            r == self@.pos,
    {
        self.pos
    }

    /// Appends `data` after the existing valid bytes, growing the
    /// allocation by exactly `data.len()` when the bytes would not fit.
    /// Growth preserves the existing valid bytes. With the storage strategy
    /// used here growth cannot fail recoverably, so the result is always
    /// `Ok`.
    pub fn append(&mut self, data: &[u8]) -> (r: Result<(), AllocError>)
        requires
            old(self).wf(),
            old(self)@.capacity + data@.len() <= usize::MAX,
        ensures
            final(self).wf(),
            final(self)@ == spec_append(old(self)@, data@),
            r is Ok,
    {
        if self.data_len + data.len() > self.storage.len() {
            // Grow by exactly the incoming size.
            let target = self.storage.len() + data.len();
            while self.storage.len() < target
                invariant
                    self.storage@.len() <= target,
                    target <= usize::MAX,
                    old(self).storage@.len() <= self.storage@.len(),
                    self.storage@.subrange(0, old(self).storage@.len() as int)
                        == old(self).storage@,
                    self.data_len == old(self).data_len,
                    self.pos == old(self).pos,
                decreases target - self.storage@.len(),
            {
                self.storage.push(0u8);
                proof {
                    assert(self.storage@.subrange(0, old(self).storage@.len() as int)
                        =~= old(self).storage@);
                }
            }
        }
        let offset = self.data_len;
        let ghost cap_now = self.storage@.len();
        let mut i: usize = 0;
        while i < data.len()
            invariant
                i <= data@.len(),
                offset + data@.len() <= usize::MAX,
                offset + data@.len() <= self.storage@.len(),
                self.storage@.len() == cap_now,
                self.data_len == offset,
                self.pos == old(self).pos,
                self.storage@.subrange(0, offset as int)
                    == old(self).storage@.subrange(0, offset as int),
                self.storage@.subrange(offset as int, offset + i)
                    == data@.subrange(0, i as int),
            decreases data@.len() - i,
        {
            let ghost before = self.storage@;
            self.storage[offset + i] = data[i];
            proof {
                assert(self.storage@.subrange(0, offset as int)
                    =~= before.subrange(0, offset as int));
                assert(self.storage@.subrange(offset as int, offset + i + 1)
                    =~= before.subrange(offset as int, offset + i).push(data@[i as int]));
                assert(data@.subrange(0, i + 1)
                    =~= data@.subrange(0, i as int).push(data@[i as int]));
            }
            i += 1;
        }
        self.data_len = offset + data.len();
        proof {
            assert(self.storage@.subrange(offset as int, offset + data@.len()) =~= data@);
            assert(old(self)@.data =~= old(self).storage@.subrange(0, offset as int));
            assert(self@.data =~= self.storage@.subrange(0, offset as int) + self.storage@
                .subrange(offset as int, offset + data@.len()));
            assert(self@.data =~= old(self)@.data + data@);
        }
        Ok(())
    }

    /// Overwrites the buffer from the start with `data`, which must fit in
    /// the current allocation; the valid-data length becomes `data.len()`
    /// and the cursor returns to the start. Trailing bytes beyond the new
    /// length are simply no longer valid.
    pub fn set_data(&mut self, data: &[u8])
        requires
            old(self).wf(),
            data@.len() <= old(self)@.capacity,
        ensures
            final(self).wf(),
            final(self)@ == spec_set_data(old(self)@, data@),
    {
        let mut i: usize = 0;
        while i < data.len()
            invariant
                i <= data@.len(),
                data@.len() <= self.storage@.len(),
                self.storage@.len() == old(self).storage@.len(),
                self.data_len == old(self).data_len,
                self.storage@.subrange(0, i as int) == data@.subrange(0, i as int),
            decreases data@.len() - i,
        {
            let ghost before = self.storage@;
            self.storage[i] = data[i];
            proof {
                assert(self.storage@.subrange(0, i + 1)
                    =~= before.subrange(0, i as int).push(data@[i as int]));
                assert(data@.subrange(0, i + 1)
                    =~= data@.subrange(0, i as int).push(data@[i as int]));
            }
            i += 1;
        }
        self.data_len = data.len();
        self.pos = 0;
        proof {
            assert(self@.data =~= data@);
        }
    }

    /// Resets the valid-data length and the cursor to zero. The allocation
    /// is kept, so clearing is the fast path for reuse.
    pub fn clear(&mut self)
        ensures
            final(self).wf(),
            final(self)@ == spec_clear(old(self)@),
    {
        self.data_len = 0;
        self.pos = 0;
        proof {
            assert(self@.data =~= Seq::<u8>::empty());
        }
    }

    /// A read-only view of exactly the valid bytes.
    pub fn data(&self) -> (r: &[u8])
        requires
            self.wf(),
        ensures
            r@ == self@.data,
    {
        vstd::slice::slice_subrange(self.storage.as_slice(), 0, self.data_len)
    }

    /// A mutable view of exactly the valid bytes, for in-place edits of
    /// already-written data. Edits through the view keep the valid-data
    /// length, the cursor and the allocation unchanged.
    pub fn data_mut(&mut self) -> (r: &mut [u8])
        requires
            old(self).wf(),
        ensures
            r@ == old(self)@.data,
            final(r)@.len() == r@.len() ==> {
                &&& final(self).wf()
                &&& final(self)@.capacity == old(self)@.capacity
                &&& final(self)@.data =~= final(r)@
                &&& final(self)@.pos == old(self)@.pos
            },
    {
        let len = self.data_len;
        let s = self.storage.as_mut_slice();
        let (a, _rest) = s.split_at_mut(len);
        proof {
            assert(a@ =~= old(self)@.data);
        }
        a
    }
}

} // verus!
