//! Invoke identifiers: the 256 one-octet ids that pair a confirmed request
//! with its reply, allocated per destination.
use vstd::prelude::*;

verus! {

/// The ids in use (a 256-bit set) and where the next search starts.
pub struct InvokeIdPool {
    /// Bit `i % 64` of word `i / 64` is set when id `i` is in use.
    in_use: [u64; 4],
    /// The id tried first by the next allocation.
    next_hint: u8,
}

/// What a pool holds: the ids in use and the search start.
pub struct PoolView {
    pub used: Set<u8>,
    pub hint: u8,
}

/// Whether bit `id % 64` is set in word `id / 64` of `words`.
pub open spec fn bit_set(words: Seq<u64>, id: u8) -> bool {
    (words[(id / 64) as int] >> ((id % 64) as u64)) & 1 == 1
}

impl View for InvokeIdPool {
    type V = PoolView;

    closed spec fn view(&self) -> PoolView {
        PoolView { used: Set::new(|id: u8| bit_set(self.in_use@, id)), hint: self.next_hint }
    }
}

/// The `k`-th id from `hint` on, wrapping after 255.
pub open spec fn id_at(hint: u8, k: nat) -> u8 {
    ((hint as nat + k) % 256) as u8
}

/// The id an allocation picks: the first id not in `used` among `hint`,
/// `hint + 1`, ... (wrapping after 255), looking from the `k`-th on; `None`
/// when all are in use.
pub open spec fn next_free(used: Set<u8>, hint: u8, k: nat) -> Option<u8>
    decreases 256 - k,
{
    if k >= 256 {
        None
    } else if !used.contains(id_at(hint, k)) {
        Some(id_at(hint, k))
    } else {
        next_free(used, hint, k + 1)
    }
}

/// The empty pool.
pub open spec fn empty_pool() -> PoolView {
    PoolView { used: Set::empty(), hint: 0 }
}

/// Every id is in use.
pub open spec fn pool_full(used: Set<u8>) -> bool {
    forall|id: u8| used.contains(id)
}

impl InvokeIdPool {
    /// A pool with every id free.
    pub fn new() -> (r: Self)
        ensures
            r@.used == Set::<u8>::empty(),
            r@.hint == 0,
    {
        let r = InvokeIdPool { in_use: [0u64; 4], next_hint: 0 };
        assert forall|id: u8| !bit_set(r.in_use@, id) by {
            let w = r.in_use@[(id / 64) as int];
            assert(w == 0);
            assert((0u64 >> ((id % 64) as u64)) & 1 == 0) by (bit_vector);
        }
        assert(r@.used =~= Set::<u8>::empty());
        r
    }

    /// Takes the first free id from the hint on (wrapping), marks it in use
    /// and moves the hint past it; `None`, with nothing changed, when all
    /// 256 ids are in use.
    pub fn allocate(&mut self) -> (r: Option<u8>)
        ensures
            r == next_free(old(self)@.used, old(self)@.hint, 0),
            match r {
                Some(id) => final(self)@.used == old(self)@.used.insert(id) && final(self)@.hint == (
                (id as nat + 1) % 256) as u8,
                None => final(self)@ == old(self)@,
            },
    {
        let mut offset: u16 = 0;
        while offset <= 255
            invariant
                offset <= 256,
                *self == *old(self),
                next_free(self@.used, self@.hint, 0) == next_free(self@.used, self@.hint, offset as nat),
            decreases 256 - offset,
        {
            let sum: u16 = self.next_hint as u16 + offset;
            let id = (sum & 0xFF) as u8;
            proof {
                assert((sum & 0xFF) as u8 == (sum % 256) as u8) by (bit_vector);
            }
            if !self.is_in_use(id) {
                self.set_in_use(id, true);
                self.next_hint = id.wrapping_add(1);
                proof {
                    assert(id.wrapping_add(1) == ((id as nat + 1) % 256) as u8) by (bit_vector);
                }
                return Some(id);
            }
            offset = offset + 1;
        }
        None
    }

    /// Whether some id is free, so that `allocate` succeeds.
    pub fn has_free(&self) -> (r: bool)
        ensures
            r == next_free(self@.used, self@.hint, 0) is Some,
    {
        proof {
            lemma_allocate_finds_free(self@.used, self@.hint);
        }
        let mut id: u16 = 0;
        while id < 256
            invariant
                id <= 256,
                forall|j: u8| (j as u16) < id ==> #[trigger] self@.used.contains(j),
            decreases 256 - id,
        {
            if !self.is_in_use(id as u8) {
                proof {
                    lemma_allocate_finds_free(self@.used, self@.hint);
                    assert(!pool_full(self@.used));
                }
                return true;
            }
            id = id + 1;
        }
        assert forall|j: u8| #[trigger] self@.used.contains(j) by {
            assert((j as u16) < id);
        }
        false
    }

    /// Returns `id` to the pool.
    pub fn free(&mut self, id: u8)
        ensures
            final(self)@.used == old(self)@.used.remove(id),
            final(self)@.hint == old(self)@.hint,
    {
        self.set_in_use(id, false);
    }

    fn is_in_use(&self, id: u8) -> (r: bool)
        ensures
            r == self@.used.contains(id),
    {
        let word = (id / 64) as usize;
        let bit = id % 64;
        (self.in_use[word] >> bit) & 1 == 1
    }

    fn set_in_use(&mut self, id: u8, value: bool)
        ensures
            final(self)@.used == if value {
                old(self)@.used.insert(id)
            } else {
                old(self)@.used.remove(id)
            },
            final(self)@.hint == old(self)@.hint,
    {
        let word = (id / 64) as usize;
        let bit = id % 64;
        let w = self.in_use[word];
        let nw = if value {
            w | (1u64 << bit)
        } else {
            w & !(1u64 << bit)
        };
        self.in_use[word] = nw;
        proof {
            assert forall|j: u8| bit_set(self.in_use@, j) == (if value {
                old(self)@.used.insert(id)
            } else {
                old(self)@.used.remove(id)
            }).contains(j) by {
                let jw = (j / 64) as int;
                let jb = (j % 64) as u64;
                let b = bit as u64;
                if jw == word as int {
                    assert(old(self).in_use@[jw] == w);
                    assert(self.in_use@[jw] == nw);
                    lemma_bit_update(w, b, jb);
                    if j == id {
                        assert(jb == b);
                    } else {
                        assert(jb != b);
                    }
                } else {
                    assert(self.in_use@[jw] == old(self).in_use@[jw]);
                }
            }
            assert(final(self)@.used =~= (if value {
                old(self)@.used.insert(id)
            } else {
                old(self)@.used.remove(id)
            }));
        }
    }
}

/// Setting or clearing bit `b` of `w` changes bit `b` and no other.
proof fn lemma_bit_update(w: u64, b: u64, c: u64)
    requires
        b < 64,
        c < 64,
    ensures
        ((w | (1u64 << b)) >> b) & 1 == 1,
        ((w & !(1u64 << b)) >> b) & 1 == 0,
        c != b ==> ((w | (1u64 << b)) >> c) & 1 == (w >> c) & 1,
        c != b ==> ((w & !(1u64 << b)) >> c) & 1 == (w >> c) & 1,
{
    assert(((w | (1u64 << b)) >> b) & 1 == 1 && ((w & !(1u64 << b)) >> b) & 1 == 0 && (c != b ==> ((w
        | (1u64 << b)) >> c) & 1 == (w >> c) & 1) && (c != b ==> ((w & !(1u64 << b)) >> c) & 1 == (w
        >> c) & 1)) by (bit_vector)
        requires
            b < 64,
            c < 64,
    ;
}

impl Default for InvokeIdPool {
    fn default() -> (r: Self)
        ensures
            r@.used == Set::<u8>::empty(),
            r@.hint == 0,
    {
        Self::new()
    }
}

/// The pick of `next_free`, looking from the `k`-th id on, is an id not in
/// use, and it is `None` exactly when every id from the `k`-th on is in use.
pub proof fn lemma_next_free(used: Set<u8>, hint: u8, k: nat)
    requires
        k <= 256,
    ensures
        match next_free(used, hint, k) {
            Some(id) => !used.contains(id),
            None => forall|j: nat| k <= j < 256 ==> used.contains(#[trigger] id_at(hint, j)),
        },
    decreases 256 - k,
{
    if k < 256 {
        lemma_next_free(used, hint, k + 1);
    }
}

/// Allocation finds a free id exactly when not every id is in use, and the
/// id it finds is one that was free.
pub proof fn lemma_allocate_finds_free(used: Set<u8>, hint: u8)
    ensures
        next_free(used, hint, 0) is None <==> pool_full(used),
        next_free(used, hint, 0) matches Some(id) ==> !used.contains(id),
{
    lemma_next_free(used, hint, 0);
    if next_free(used, hint, 0) is None {
        assert forall|id: u8| used.contains(id) by {
            let j: nat = ((id as int - hint as int) % 256) as nat;
            assert(id_at(hint, j) == id);
        }
    }
}

/// When exactly one id is free, allocation picks it whatever the hint.
pub proof fn lemma_allocate_only_free(used: Set<u8>, hint: u8, x: u8)
    requires
        !used.contains(x),
        forall|id: u8| id != x ==> used.contains(id),
    ensures
        next_free(used, hint, 0) == Some(x),
{
    lemma_allocate_finds_free(used, hint);
}

} // verus!
