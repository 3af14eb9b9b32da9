use vstd::prelude::*;

verus! {

/// Outcome of an operation on an id that names no live record.
#[derive(Debug, Clone, Copy, PartialEq, Eq, Structural)]
pub struct NotFound;

/// `id` is the lowest id that no live record of `m` holds.
pub open spec fn is_lowest_free<T>(m: Map<nat, T>, id: nat) -> bool {
    &&& !m.contains_key(id)
    &&& forall|j: nat| j < id ==> m.contains_key(j)
}

/// Every live id of `m` lies below `bound`.
pub open spec fn ids_below<T>(m: Map<nat, T>, bound: nat) -> bool {
    forall|k: nat| m.contains_key(k) ==> k < bound
}

/// The lowest id that no live record of `m` holds, where the live ids are bounded.
pub open spec fn lowest_free<T>(m: Map<nat, T>) -> nat {
    choose|id: nat| is_lowest_free(m, id)
}

/// One operation on a store, over its live records.
pub enum StoreOp<T> {
    Insert(T),
    Update(nat, T),
    Remove(nat),
}

/// The live records after `op` is applied to `m`.
pub open spec fn apply_op<T>(m: Map<nat, T>, op: StoreOp<T>) -> Map<nat, T> {
    match op {
        StoreOp::Insert(v) => m.insert(lowest_free(m), v),
        StoreOp::Update(k, v) => if m.contains_key(k) {
            m.insert(k, v)
        } else {
            m
        },
        StoreOp::Remove(k) => m.remove(k),
    }
}

/// The live records after `ops`, in order, on an empty store.
pub open spec fn replay<T>(ops: Seq<StoreOp<T>>) -> Map<nat, T>
    decreases ops.len(),
{
    if ops.len() == 0 {
        Map::empty()
    } else {
        apply_op(replay(ops.drop_last()), ops.last())
    }
}

/// The ids that the insertions among `ops` were given.
pub open spec fn assigned_ids<T>(ops: Seq<StoreOp<T>>) -> Set<nat>
    decreases ops.len(),
{
    if ops.len() == 0 {
        Set::empty()
    } else {
        let earlier = assigned_ids(ops.drop_last());
        match ops.last() {
            StoreOp::Insert(_) => earlier.insert(lowest_free(replay(ops.drop_last()))),
            _ => earlier,
        }
    }
}

/// At most one id is the lowest free one.
pub proof fn lemma_lowest_free_unique<T>(m: Map<nat, T>, a: nat, b: nat)
    requires
        is_lowest_free(m, a),
        is_lowest_free(m, b),
    ensures
        a == b,
{
    if a < b {
        assert(m.contains_key(a));
    } else if b < a {
        assert(m.contains_key(b));
    }
}

proof fn lemma_free_below_or_full<T>(m: Map<nat, T>, n: nat)
    ensures
        (exists|id: nat| id < n && is_lowest_free(m, id)) || (forall|j: nat| j < n ==> m.contains_key(j)),
    decreases n,
{
    if n > 0 {
        lemma_free_below_or_full(m, (n - 1) as nat);
        if !(exists|id: nat| id < n - 1 && is_lowest_free(m, id)) && !m.contains_key((n - 1) as nat) {
            assert(is_lowest_free(m, (n - 1) as nat));
        }
    }
}

/// Where every live id lies below `bound`, a lowest free id exists, at most `bound`.
pub proof fn lemma_lowest_free_exists<T>(m: Map<nat, T>, bound: nat)
    requires
        ids_below(m, bound),
    ensures
        is_lowest_free(m, lowest_free(m)),
        lowest_free(m) <= bound,
{
    lemma_free_below_or_full(m, bound + 1);
    assert(!m.contains_key(bound));
    let id = choose|id: nat| id < bound + 1 && is_lowest_free(m, id);
    lemma_lowest_free_unique(m, id, lowest_free(m));
}

/// Every id live after `ops` lies below the number of operations.
pub proof fn lemma_replay_bounded<T>(ops: Seq<StoreOp<T>>)
    ensures
        ids_below(replay(ops), ops.len()),
    decreases ops.len(),
{
    if ops.len() > 0 {
        let prev = replay(ops.drop_last());
        lemma_replay_bounded(ops.drop_last());
        if ops.last() is Insert {
            lemma_lowest_free_exists(prev, (ops.len() - 1) as nat);
        }
    }
}

/// Whatever operations came before, an insertion gives its record an id that no
/// live record holds, and every record that was live keeps its id and its value:
/// no two live records ever share an id.
pub proof fn lemma_insert_fresh<T>(ops: Seq<StoreOp<T>>, v: T)
    ensures
        !replay(ops).contains_key(lowest_free(replay(ops))),
        replay(ops.push(StoreOp::Insert(v)))[lowest_free(replay(ops))] == v,
        forall|k: nat| #[trigger]
            replay(ops).contains_key(k) ==> k != lowest_free(replay(ops)) && replay(
                ops.push(StoreOp::Insert(v)),
            ).contains_key(k) && replay(ops.push(StoreOp::Insert(v)))[k] == replay(ops)[k],
{
    lemma_replay_bounded(ops);
    lemma_lowest_free_exists(replay(ops), ops.len());
    assert(ops.push(StoreOp::Insert(v)).drop_last() == ops);
}

/// Removing the record `k`, when every lower id is live, and inserting again
/// gives the new record the id `k`.
pub proof fn lemma_recycle<T>(m: Map<nat, T>, k: nat, v: T)
    requires
        m.contains_key(k),
        forall|j: nat| j < k ==> m.contains_key(j),
    ensures
        lowest_free(m.remove(k)) == k,
        apply_op(apply_op(m, StoreOp::Remove(k)), StoreOp::Insert(v)) == m.insert(k, v),
{
    assert(is_lowest_free(m.remove(k), k));
    lemma_lowest_free_unique(m.remove(k), k, lowest_free(m.remove(k)));
    assert(m.remove(k).insert(k, v) =~= m.insert(k, v));
}

/// An id that no insertion among `ops` was given names no live record, and
/// neither does an id just removed.
pub proof fn lemma_absent_ids<T>(ops: Seq<StoreOp<T>>, k: nat)
    ensures
        !assigned_ids(ops).contains(k) ==> !replay(ops).contains_key(k),
        !replay(ops.push(StoreOp::Remove(k))).contains_key(k),
    decreases ops.len(),
{
    assert(ops.push(StoreOp::Remove(k)).drop_last() == ops);
    if ops.len() > 0 {
        lemma_absent_ids(ops.drop_last(), k);
    }
}

/// A store of records addressed by small integer ids. A removed record's slot
/// is reused, and an insertion always takes the lowest free slot.
pub struct RecordStore<T> {
    slots: Vec<Option<T>>,
}

impl<T> View for RecordStore<T> {
    type V = Map<nat, T>;

    /// The live records, by id.
    closed spec fn view(&self) -> Map<nat, T> {
        Map::new(
            |k: nat| k < self.slots@.len() && self.slots@[k as int] is Some,
            |k: nat| self.slots@[k as int]->Some_0,
        )
    }
}

impl<T> RecordStore<T> {
    /// One more than the highest slot ever used: no live id reaches it.
    pub closed spec fn high_water(&self) -> nat {
        self.slots@.len()
    }

    proof fn lemma_view(&self)
        ensures
            forall|k: nat| #[trigger]
                self@.contains_key(k) <==> (k < self.slots@.len() && self.slots@[k as int] is Some),
            forall|k: nat| #[trigger]
                self@.contains_key(k) ==> self@[k] == self.slots@[k as int]->Some_0,
    {
    }

    pub proof fn lemma_ids_below_high_water(&self)
        ensures
            ids_below(self@, self.high_water()),
    {
    }

    /// An empty store.
    pub fn new() -> (s: Self)
        ensures
            s@ == Map::<nat, T>::empty(),
    {
        let s = RecordStore { slots: Vec::new() };
        assert(s@ =~= Map::<nat, T>::empty());
        s
    }

    /// Whether `id` names a live record.
    pub fn contains(&self, id: usize) -> (r: bool)
        ensures
            r == self@.contains_key(id as nat),
    {
        proof {
            self.lemma_view();
        }
        id < self.slots.len() && self.slots[id].is_some()
    }

    /// Stores `value` in the lowest free slot and returns that slot's id.
    pub fn insert(&mut self, value: T) -> (id: usize)
        ensures
            is_lowest_free(old(self)@, id as nat),
            id as nat == lowest_free(old(self)@),
            final(self)@ == old(self)@.insert(id as nat, value),
            final(self)@ == apply_op(old(self)@, StoreOp::Insert(value)),
    {
        proof {
            self.lemma_view();
            lemma_lowest_free_exists(self@, self.slots@.len());
        }
        let len = self.slots.len();
        let mut i: usize = 0;
        while i < len
            invariant
                self.slots@ == old(self).slots@,
                is_lowest_free(old(self)@, lowest_free(old(self)@)),
                len == self.slots@.len(),
                i <= len,
                forall|j: int| 0 <= j < i ==> self.slots@[j] is Some,
            decreases len - i,
        {
            if self.slots[i].is_none() {
                self.slots.set(i, Some(value));
                proof {
                    self.lemma_view();
                }
                assert(self@ =~= old(self)@.insert(i as nat, value));
                proof {
                    lemma_lowest_free_unique(old(self)@, i as nat, lowest_free(old(self)@));
                }
                return i;
            }
            i = i + 1;
        }
        self.slots.push(Some(value));
        proof {
            self.lemma_view();
        }
        assert(self@ =~= old(self)@.insert(len as nat, value));
        proof {
            lemma_lowest_free_unique(old(self)@, len as nat, lowest_free(old(self)@));
        }
        len
    }

    /// The record with id `id`, if it is live.
    pub fn get(&self, id: usize) -> (r: Option<&T>)
        ensures
            match r {
                Some(v) => self@.contains_key(id as nat) && *v == self@[id as nat],
                None => !self@.contains_key(id as nat),
            },
    {
        proof {
            self.lemma_view();
        }
        if id < self.slots.len() {
            self.slots[id].as_ref()
        } else {
            None
        }
    }

    /// Replaces the record with id `id`, keeping the id, if it is live.
    pub fn update(&mut self, id: usize, value: T) -> (r: Result<(), NotFound>)
        ensures
            r is Ok <==> old(self)@.contains_key(id as nat),
            r is Ok ==> final(self)@ == old(self)@.insert(id as nat, value),
            r is Err ==> final(self)@ == old(self)@,
            final(self)@ == apply_op(old(self)@, StoreOp::Update(id as nat, value)),
    {
        proof {
            self.lemma_view();
        }
        if self.contains(id) {
            self.slots.set(id, Some(value));
            proof {
                self.lemma_view();
            }
            assert(self@ =~= old(self)@.insert(id as nat, value));
            Ok(())
        } else {
            Err(NotFound)
        }
    }

    /// Removes the record with id `id`, if it is live, freeing its slot.
    pub fn remove(&mut self, id: usize) -> (r: Result<(), NotFound>)
        ensures
            r is Ok <==> old(self)@.contains_key(id as nat),
            final(self)@ == old(self)@.remove(id as nat),
            final(self)@ == apply_op(old(self)@, StoreOp::Remove(id as nat)),
    {
        proof {
            self.lemma_view();
        }
        if self.contains(id) {
            self.slots.set(id, None);
            proof {
                self.lemma_view();
            }
            assert(self@ =~= old(self)@.remove(id as nat));
            Ok(())
        } else {
            assert(self@ =~= old(self)@.remove(id as nat));
            Err(NotFound)
        }
    }

    /// The live ids, in ascending order.
    pub fn list_ids(&self) -> (r: Vec<usize>)
        ensures
            forall|i: int, j: int| 0 <= i < j < r@.len() ==> r@[i] < r@[j],
            forall|k: nat| self@.contains_key(k) <==> exists|i: int| 0 <= i < r@.len() && r@[i] == k,
    {
        proof {
            self.lemma_view();
        }
        let mut r: Vec<usize> = Vec::new();
        let len = self.slots.len();
        let mut i: usize = 0;
        while i < len
            invariant
                len == self.slots@.len(),
                i <= len,
                forall|a: int, b: int| 0 <= a < b < r@.len() ==> r@[a] < r@[b],
                forall|a: int| 0 <= a < r@.len() ==> r@[a] < i,
                forall|k: nat| k < i ==> (self@.contains_key(k) <==> exists|a: int| 0 <= a < r@.len() && r@[a] == k),
                forall|a: int| 0 <= a < r@.len() ==> self@.contains_key(r@[a] as nat),
            decreases len - i,
        {
            let ghost prev = r@;
            if self.slots[i].is_some() {
                r.push(i);
            }
            assert forall|k: nat| k < i + 1 implies (self@.contains_key(k) <==> exists|a: int|
                0 <= a < r@.len() && r@[a] == k) by {
                if k < i && self@.contains_key(k) {
                    let a = choose|a: int| 0 <= a < prev.len() && prev[a] == k;
                    assert(r@[a] == k);
                }
                if k == i && self@.contains_key(k) {
                    assert(r@[r@.len() - 1] == k);
                }
            }
            i = i + 1;
        }
        r
    }
}

} // verus!
