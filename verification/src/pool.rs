use crate::buffer::fresh_buf;
use crate::buffer::BufModel;
use crate::buffer::MBuf;
use vstd::prelude::*;

verus! {

/// The fixed ascending ladder of capacity classes, in bytes.
pub open spec fn ladder() -> Seq<nat> {
    seq![1024nat, 2048nat, 4096nat, 8192nat, 16384nat, 32768nat]
}

/// How many buffers of each class the warm-up allocates.
pub open spec fn quota(i: int) -> nat {
    if i == 0 {
        100
    } else if i == 1 {
        100
    } else if i == 2 {
        20
    } else if i == 3 {
        10
    } else if i == 4 {
        5
    } else {
        2
    }
}

/// The ladder index a requested size resolves to. The walk compares with a
/// strict less-than, so a request equal to a class resolves to the next
/// class up, and a request of the largest class or more resolves to none.
pub open spec fn class_index_of(size: nat) -> Option<int> {
    if size < 1024 {
        Some(0int)
    } else if size < 2048 {
        Some(1int)
    } else if size < 4096 {
        Some(2int)
    } else if size < 8192 {
        Some(3int)
    } else if size < 16384 {
        Some(4int)
    } else if size < 32768 {
        Some(5int)
    } else {
        None
    }
}

/// The capacity class a requested size resolves to.
pub open spec fn class_of(size: nat) -> Option<nat> {
    match class_index_of(size) {
        Some(i) => Some(ladder()[i]),
        None => None,
    }
}

/// The ladder index whose class is exactly the given capacity, if any.
/// Buffers are given back by this exact match.
pub open spec fn exact_class_index(capacity: nat) -> Option<int> {
    if capacity == 1024 {
        Some(0int)
    } else if capacity == 2048 {
        Some(1int)
    } else if capacity == 4096 {
        Some(2int)
    } else if capacity == 8192 {
        Some(3int)
    } else if capacity == 16384 {
        Some(4int)
    } else if capacity == 32768 {
        Some(5int)
    } else {
        None
    }
}

/// The pool model right after the warm-up: every class holds its full
/// quota of fresh buffers.
pub open spec fn initial_pool() -> Seq<Seq<BufModel>> {
    Seq::new(6, |i: int| Seq::new(quota(i), |j: int| fresh_buf(ladder()[i])))
}

/// Validity of a pool model: either no buckets yet (before the warm-up) or
/// one bucket per class, and every buffer stored under a class has exactly
/// that class's capacity and a valid model.
pub open spec fn pool_inv(p: Seq<Seq<BufModel>>) -> bool {
    &&& p.len() == 0 || p.len() == 6
    &&& forall|i: int, j: int|
        0 <= i < p.len() && 0 <= j < p[i].len() ==> (#[trigger] p[i][j]).inv() && p[i][j].capacity
            == ladder()[i]
}

/// What `take` does to a pool model: nothing before the warm-up or when the
/// size resolves to no class; otherwise the most recently added buffer
/// leaves the resolved bucket, or, when that bucket is idle-empty, a fresh
/// buffer of the class capacity is handed out and the pool is unchanged.
pub open spec fn pool_take(p: Seq<Seq<BufModel>>, size: nat) -> (Seq<Seq<BufModel>>, Option<
    BufModel,
>) {
    if p.len() != 6 {
        (p, None)
    } else {
        match class_index_of(size) {
            Some(i) => if p[i].len() > 0 {
                (p.update(i, p[i].drop_last()), Some(p[i].last()))
            } else {
                (p, Some(fresh_buf(ladder()[i])))
            },
            None => (p, None),
        }
    }
}

/// What `give` does to a pool model: when the buffer's current capacity is
/// exactly one of the classes and the pool has been warmed up, the buffer
/// joins that class's bucket; otherwise the pool is unchanged and the
/// buffer is released.
pub open spec fn pool_give(p: Seq<Seq<BufModel>>, b: BufModel) -> Seq<Seq<BufModel>> {
    if p.len() == 6 {
        match exact_class_index(b.capacity) {
            Some(i) => p.update(i, p[i].push(b)),
            None => p,
        }
    } else {
        p
    }
}

/// The exact-match class index exists precisely for the ladder's values,
/// and names the position of that value in the ladder.
pub proof fn lemma_exact_class_ladder(capacity: nat)
    ensures
        (exact_class_index(capacity) is Some) <==> ladder().contains(capacity),
        exact_class_index(capacity) matches Some(i) ==> 0 <= i < 6 && ladder()[i] == capacity,
{
    if exact_class_index(capacity) is Some {
        let i = exact_class_index(capacity).unwrap();
        assert(ladder()[i] == capacity);
        assert(ladder().contains(capacity));
    }
    if ladder().contains(capacity) {
        let k = choose|k: int| 0 <= k < ladder().len() && ladder()[k] == capacity;
        assert(exact_class_index(capacity) is Some);
    }
}

/// Law: once the pool is warmed up, `take` hands nothing out exactly for
/// the sizes at or beyond the largest class: the ladder walk compares with
/// a strict less-than, so the largest class itself already resolves to no
/// bucket.
pub proof fn lemma_take_none_boundary(p: Seq<Seq<BufModel>>, size: nat)
    requires
        p.len() == 6,
    ensures
        (pool_take(p, size).1 is None) <==> size >= 32768,
{
}

/// Law: once the pool is warmed up, and away from the largest class itself
/// (where the strict walk already hands nothing out), `take` returns
/// nothing exactly when the size exceeds the largest class.
pub proof fn lemma_take_none_iff(p: Seq<Seq<BufModel>>, size: nat)
    requires
        p.len() == 6,
        size != 32768,
    ensures
        (pool_take(p, size).1 is None) <==> size > 32768,
{
}

/// Law: once warmed up, whenever a size resolves to a class, `take` hands
/// out a buffer of exactly that class's capacity, reused or fresh.
pub proof fn lemma_take_capacity(p: Seq<Seq<BufModel>>, size: nat)
    requires
        pool_inv(p),
        p.len() == 6,
        class_index_of(size) is Some,
    ensures
        pool_take(p, size).1 matches Some(b) && b.capacity == class_of(size).unwrap(),
{
    let i = class_index_of(size).unwrap();
    if p[i].len() > 0 {
        assert(p[i][p[i].len() - 1].capacity == ladder()[i]);
    }
}

/// Law: away from the ladder's own values (which the strict walk sends one
/// class up), a size below the largest class resolves to the smallest
/// class at least as large as itself.
pub proof fn lemma_take_capacity_smallest(p: Seq<Seq<BufModel>>, size: nat)
    requires
        pool_inv(p),
        p.len() == 6,
        size < 32768,
        !ladder().contains(size),
    ensures
        pool_take(p, size).1 matches Some(b) && {
            &&& ladder().contains(b.capacity)
            &&& b.capacity >= size
            &&& forall|k: int|
                0 <= k < ladder().len() && ladder()[k] >= size ==> b.capacity <= ladder()[k]
        },
{
    lemma_take_capacity(p, size);
    let i = class_index_of(size).unwrap();
    assert(ladder()[i] == class_of(size).unwrap());
    assert(ladder().contains(class_of(size).unwrap()));
    assert(size != 1024 && size != 2048 && size != 4096 && size != 8192 && size != 16384) by {
        assert(ladder()[0] == 1024nat && ladder()[1] == 2048nat && ladder()[2] == 4096nat
            && ladder()[3] == 8192nat && ladder()[4] == 16384nat);
    }
}

/// Law: giving back a buffer whose capacity is exactly a ladder class to a
/// warmed-up pool and then taking a size that resolves to that class
/// returns that very buffer, its capacity unchanged.
pub proof fn lemma_give_take_round_trip(p: Seq<Seq<BufModel>>, b: BufModel, size: nat)
    requires
        pool_inv(p),
        p.len() == 6,
        exact_class_index(b.capacity) is Some,
        class_of(size) == Some(b.capacity),
    ensures
        pool_take(pool_give(p, b), size).1 == Some(b),
{
    let i = exact_class_index(b.capacity).unwrap();
    let j = class_index_of(size).unwrap();
    assert(ladder()[i] == b.capacity);
    assert(ladder()[j] == b.capacity);
    assert(i == j);
    assert(pool_give(p, b)[i] == p[i].push(b));
}

/// Law: giving back a buffer whose capacity matches no ladder class leaves
/// the pool exactly as it was, so the buffer cannot be recovered by any
/// future take.
pub proof fn lemma_give_unpooled_noop(p: Seq<Seq<BufModel>>, b: BufModel)
    requires
        exact_class_index(b.capacity) is None,
    ensures
        pool_give(p, b) == p,
{
}

/// A pool of idle buffers, bucketed by the fixed capacity classes. Buffers
/// are handed out and reclaimed whole; a reclaimed buffer keeps whatever
/// valid data its previous owner left, so consumers clear it themselves.
pub struct MBufPool {
    buckets: Vec<Vec<MBuf>>,
}

impl View for MBufPool {
    type V = Seq<Seq<BufModel>>;

    closed spec fn view(&self) -> Seq<Seq<BufModel>> {
        self.buckets@.map_values(|b: Vec<MBuf>| b@.map_values(|m: MBuf| m@))
    }
}

impl MBufPool {
    /// Well-formedness: the stored buffers are well formed and the pool
    /// model is valid.
    pub closed spec fn wf(&self) -> bool {
        &&& self.buckets@.len() == 0 || self.buckets@.len() == 6
        &&& forall|i: int, j: int|
            0 <= i < self.buckets@.len() && 0 <= j < self.buckets@[i]@.len() ==> (
            #[trigger] self.buckets@[i]@[j]).wf() && self.buckets@[i]@[j]@.capacity == ladder()[i]
    }

    /// A well-formed pool has a valid model.
    pub proof fn lemma_wf_inv(&self)
        requires
            self.wf(),
        ensures
            pool_inv(self@),
    {
        assert forall|i: int, j: int| 0 <= i < self@.len() && 0 <= j < self@[i].len() implies (
        #[trigger] self@[i][j]).inv() && self@[i][j].capacity == ladder()[i] by {
            assert(self@[i] == self.buckets@[i]@.map_values(|m: MBuf| m@));
            assert(self@[i][j] == self.buckets@[i]@[j]@);
            self.buckets@[i]@[j].lemma_wf_inv();
        }
    }

    /// Constructs a pool with no buckets; nothing can be taken from it
    /// until the warm-up has run.
    pub fn new() -> (r: MBufPool)
        ensures
            r.wf(),
            r@.len() == 0,
    {
        MBufPool { buckets: Vec::new() }
    }

    /// Allocates one class's warm-up bucket: `count` fresh buffers of
    /// `class` bytes each.
    fn fill_bucket(class: usize, count: usize) -> (r: Vec<MBuf>)
        requires
            class >= 1,
        ensures
            r@.len() == count,
            forall|j: int|
                0 <= j < count ==> (#[trigger] r@[j]).wf() && r@[j]@ == fresh_buf(class as nat),
    {
        let mut v: Vec<MBuf> = Vec::new();
        let mut i: usize = 0;
        while i < count
            invariant
                i <= count,
                class >= 1,
                v@.len() == i,
                forall|j: int|
                    0 <= j < i ==> (#[trigger] v@[j]).wf() && v@[j]@ == fresh_buf(class as nat),
            decreases count - i,
        {
            v.push(MBuf::new(class));
            i += 1;
        }
        v
    }

    /// Warm-up: replaces the buckets with one bucket per class, each
    /// holding its full quota of fresh buffers. The whole quota is
    /// accumulated per class.
    pub fn initialize(&mut self)
        ensures
            final(self).wf(),
            final(self)@ == initial_pool(),
    {
        let mut buckets: Vec<Vec<MBuf>> = Vec::new();
        buckets.push(Self::fill_bucket(1024, 100));
        buckets.push(Self::fill_bucket(2048, 100));
        buckets.push(Self::fill_bucket(4096, 20));
        buckets.push(Self::fill_bucket(8192, 10));
        buckets.push(Self::fill_bucket(16384, 5));
        buckets.push(Self::fill_bucket(32768, 2));
        self.buckets = buckets;
        proof {
            let p = self@;
            assert(p.len() == 6);
            assert forall|i: int| 0 <= i < 6 implies p[i] =~= initial_pool()[i] by {
                assert(p[i] == self.buckets@[i]@.map_values(|m: MBuf| m@));
            }
            assert(p =~~= initial_pool());
        }
    }

    /// The byte size of the class at a ladder index.
    fn ladder_size(idx: usize) -> (r: usize)
        requires
            idx < 6,
        ensures
            r as nat == ladder()[idx as int],
            r >= 1,
    {
        if idx == 0 {
            1024
        } else if idx == 1 {
            2048
        } else if idx == 2 {
            4096
        } else if idx == 3 {
            8192
        } else if idx == 4 {
            16384
        } else {
            32768
        }
    }

    /// Takes a buffer for a requested size. The size resolves to a class by
    /// the strict ladder walk; the most recently returned idle buffer of
    /// that class is preferred, and a pool miss falls back transparently to
    /// a fresh allocation of the class capacity. Nothing is handed out
    /// before the warm-up or for sizes beyond the ladder. A reused buffer
    /// keeps the valid data its previous owner left.
    pub fn take(&mut self, size: usize) -> (r: Option<MBuf>)
        requires
            old(self).wf(),
        ensures
            final(self).wf(),
            final(self)@ == pool_take(old(self)@, size as nat).0,
            match r {
                Some(b) => b.wf() && pool_take(old(self)@, size as nat).1 == Some(b@),
                None => pool_take(old(self)@, size as nat).1 is None,
            },
    {
        if self.buckets.len() != 6 {
            return None;
        }
        let idx: usize = if size < 1024 {
            0
        } else if size < 2048 {
            1
        } else if size < 4096 {
            2
        } else if size < 8192 {
            3
        } else if size < 16384 {
            4
        } else if size < 32768 {
            5
        } else {
            return None;
        };
        let class = Self::ladder_size(idx);
        let ghost prev = self@;
        let bucket = &mut self.buckets[idx];
        let ghost b0 = bucket@;
        let popped = bucket.pop();
        proof {
            let cur = self@;
            let q = pool_take(prev, size as nat).0;
            assert(prev[idx as int] == b0.map_values(|m: MBuf| m@));
            assert forall|k: int| 0 <= k < 6 implies cur[k] =~= q[k] by {
                assert(cur[k] == self.buckets@[k]@.map_values(|m: MBuf| m@));
                assert(prev[k] == old(self).buckets@[k]@.map_values(|m: MBuf| m@));
            }
            assert(cur =~~= q);
        }
        match popped {
            Some(b) => Some(b),
            None => {
                let nb = MBuf::new(class);
                Some(nb)
            },
        }
    }

    /// Gives a buffer back to the pool: it joins the bucket whose class is
    /// exactly the buffer's current capacity. With no such class (growth
    /// can push a capacity off the ladder), or before the warm-up, the
    /// buffer is released instead of pooled. The valid data is not cleared
    /// on return.
    pub fn give(&mut self, buf: MBuf)
        requires
            old(self).wf(),
            buf.wf(),
        ensures
            final(self).wf(),
            final(self)@ == pool_give(old(self)@, buf@),
    {
        if self.buckets.len() != 6 {
            return ;
        }
        let cap = buf.capacity();
        let idx: usize = if cap == 1024 {
            0
        } else if cap == 2048 {
            1
        } else if cap == 4096 {
            2
        } else if cap == 8192 {
            3
        } else if cap == 16384 {
            4
        } else if cap == 32768 {
            5
        } else {
            return ;
        };
        let ghost prev = self@;
        let ghost bm = buf@;
        let bucket = &mut self.buckets[idx];
        let ghost b0 = bucket@;
        bucket.push(buf);
        proof {
            let cur = self@;
            let q = pool_give(prev, bm);
            assert(prev[idx as int] == b0.map_values(|m: MBuf| m@));
            assert forall|k: int| 0 <= k < 6 implies cur[k] =~= q[k] by {
                assert(cur[k] == self.buckets@[k]@.map_values(|m: MBuf| m@));
                assert(prev[k] == old(self).buckets@[k]@.map_values(|m: MBuf| m@));
            }
            assert(cur =~~= q);
        }
    }
}

} // verus!
