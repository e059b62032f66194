use vstd::prelude::*;

verus! {

/// A pool of reusable byte buffers for each registered consumer.
///
/// Buffers come back with `push` and go out again with `BufCacheCons::pull`,
/// first in, first out.
pub struct BufCache {
    ids: Vec<u32>,
    pools: Vec<Vec<Vec<u8>>>,
    m: Ghost<Map<u32, Seq<Seq<u8>>>>,
}

/// The receiving end of one consumer's pool.
pub struct BufCacheCons {
    pub id: u32,
}

/// The contents of a pool, as byte sequences.
pub open spec fn pool_view(p: Seq<Vec<u8>>) -> Seq<Seq<u8>> {
    p.map_values(|b: Vec<u8>| b@)
}

/// A buffer brought to length `len`: cut, or extended with zeros.
pub open spec fn resized(b: Seq<u8>, len: nat) -> Seq<u8> {
    if len <= b.len() {
        b.subrange(0, len as int)
    } else {
        b + Seq::new((len - b.len()) as nat, |i: int| 0u8)
    }
}

impl View for BufCache {
    type V = Map<u32, Seq<Seq<u8>>>;

    /// Each registered consumer's waiting buffers, oldest first.
    closed spec fn view(&self) -> Map<u32, Seq<Seq<u8>>> {
        self.m@
    }
}

impl BufCache {
    pub closed spec fn wf(&self) -> bool {
        &&& self.ids@.len() == self.pools@.len()
        &&& forall|k: int, l: int|
            0 <= k < self.ids@.len() && 0 <= l < self.ids@.len() && k != l ==> self.ids@[k]
                != self.ids@[l]
        &&& forall|k: int|
            0 <= k < self.ids@.len() ==> self.m@.contains_key(#[trigger] self.ids@[k])
                && self.m@[self.ids@[k]] == pool_view(self.pools@[k]@)
        &&& forall|id: u32| self.m@.contains_key(id) ==> self.ids@.contains(id)
    }

    pub fn new() -> (r: BufCache)
        ensures
            r.wf(),
            r@ == Map::<u32, Seq<Seq<u8>>>::empty(),
    {
        BufCache { ids: Vec::new(), pools: Vec::new(), m: Ghost(Map::empty()) }
    }

    fn find(&self, id: u32) -> (r: Option<usize>)
        requires
            self.wf(),
        ensures
            r is None <==> !self@.contains_key(id),
            r matches Some(k) ==> k < self.ids@.len() && self.ids@[k as int] == id,
    {
        let mut k: usize = 0;
        while k < self.ids.len()
            invariant
                self.wf(),
                k <= self.ids@.len(),
                forall|m: int| 0 <= m < k ==> self.ids@[m] != id,
            decreases self.ids@.len() - k,
        {
            if self.ids[k] == id {
                return Some(k);
            }
            k = k + 1;
        }
        None
    }

    /// Registers consumer `cons_id` with an empty pool and returns its receiving end.
    pub fn new_consumer(&mut self, cons_id: u32) -> (r: BufCacheCons)
        requires
            old(self).wf(),
        ensures
            final(self).wf(),
            r.id == cons_id,
            final(self)@ == old(self)@.insert(cons_id, Seq::<Seq<u8>>::empty()),
    {
        let ghost old_self = *self;
        match self.find(cons_id) {
            Some(k) => {
                let empty: Vec<Vec<u8>> = Vec::new();
                self.pools.set(k, empty);
                self.m = Ghost(self.m@.insert(cons_id, Seq::<Seq<u8>>::empty()));
                proof {
                    assert(pool_view(self.pools@[k as int]@) =~= Seq::<Seq<u8>>::empty());
                }
            },
            None => {
                self.ids.push(cons_id);
                self.pools.push(Vec::new());
                self.m = Ghost(self.m@.insert(cons_id, Seq::<Seq<u8>>::empty()));
                proof {
                    let n = old_self.ids@.len() as int;
                    assert(self.ids@[n] == cons_id);
                    assert(pool_view(self.pools@[n]@) =~= Seq::<Seq<u8>>::empty());
                    assert forall|id: u32| self.m@.contains_key(id) implies self.ids@.contains(id) by {
                        if id != cons_id {
                            let j = choose|j: int| 0 <= j < old_self.ids@.len() && old_self.ids@[j] == id;
                            assert(self.ids@[j] == id);
                        }
                    }
                }
            },
        }
        BufCacheCons { id: cons_id }
    }

    /// Returns a used buffer to the pool of consumer `cons_id`.
    pub fn push(&mut self, cons_id: u32, buf: Vec<u8>)
        requires
            old(self).wf(),
            old(self)@.contains_key(cons_id),
        ensures
            final(self).wf(),
            final(self)@ == old(self)@.insert(cons_id, old(self)@[cons_id].push(buf@)),
    {
        let ghost old_self = *self;
        let k = self.find(cons_id).unwrap();
        let mut pool: Vec<Vec<u8>> = Vec::new();
        std::mem::swap(&mut pool, &mut self.pools[k]);
        pool.push(buf);
        self.pools.set(k, pool);
        self.m = Ghost(self.m@.insert(cons_id, old_self.m@[cons_id].push(buf@)));
        proof {
            assert(pool_view(self.pools@[k as int]@) =~= pool_view(old_self.pools@[k as int]@).push(buf@));
        }
    }
}

impl BufCacheCons {
    /// Takes the oldest buffer of this consumer's pool, or a new one if the pool
    /// is empty, brought to length `buf_len`.
    pub fn pull(&mut self, cache: &mut BufCache, buf_len: usize) -> (r: Vec<u8>)
        requires
            old(cache).wf(),
            old(cache)@.contains_key(old(self).id),
        ensures
            final(self).id == old(self).id,
            final(cache).wf(),
            old(cache)@[old(self).id].len() == 0 ==> r@ == Seq::new(buf_len as nat, |i: int| 0u8)
                && final(cache)@ == old(cache)@,
            old(cache)@[old(self).id].len() > 0 ==> r@ == resized(old(cache)@[old(self).id][0], buf_len as nat)
                && final(cache)@ == old(cache)@.insert(old(self).id, old(cache)@[old(self).id].drop_first()),
    {
        let ghost old_cache = *cache;
        let k = cache.find(self.id).unwrap();
        let mut pool: Vec<Vec<u8>> = Vec::new();
        std::mem::swap(&mut pool, &mut cache.pools[k]);
        let mut buf: Vec<u8>;
        let nonempty = pool.len() > 0;
        if nonempty {
            buf = pool.remove(0);
        } else {
            buf = Vec::new();
        }
        let ghost b0 = buf@;
        let ghost rest = pool@;
        cache.pools.set(k, pool);
        if nonempty {
            cache.m = Ghost(cache.m@.insert(self.id, old_cache.m@[self.id].drop_first()));
        }
        buf.resize(buf_len, 0u8);
        proof {
            assert(buf@ =~= resized(b0, buf_len as nat));
            if nonempty {
                assert(pool_view(rest) =~= old_cache.m@[self.id].drop_first());
            } else {
                assert(cache.m@ =~= old_cache.m@);
                assert(pool_view(rest) =~= old_cache.m@[self.id]);
                assert(resized(Seq::<u8>::empty(), buf_len as nat) =~= Seq::new(buf_len as nat, |i: int| 0u8));
            }
        }
        buf
    }
}

} // verus!
