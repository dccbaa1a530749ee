//! A slab of values addressed by generation-tagged handles.
//!
//! A handle names a slot and the generation the slot had when the value was
//! stored. Removing a value frees its slot for reuse under a new generation,
//! so a handle to a removed value never finds another value.
use vstd::prelude::*;

verus! {

/// A generation-tagged slot.
struct Slot<T> {
    generation: u32,
    occupied: bool,
    value: Option<T>,
}

/// A handle to a value stored in a [`Slab`].
#[derive(Debug, Clone, Copy, PartialEq, Eq, Hash)]
pub struct Handle {
    pub index: u32,
    pub generation: u32,
}

impl Handle {
    /// The handle that names no slot.
    pub fn null() -> (h: Handle)
        ensures
            h.index == u32::MAX,
            h.generation == 0,
    {
        Handle { index: u32::MAX, generation: 0 }
    }

    pub fn is_null(&self) -> (b: bool)
        ensures
            b == (self.index == u32::MAX),
    {
        self.index == u32::MAX
    }
}

/// Values of type `T` addressed by [`Handle`]s.
pub struct Slab<T> {
    slots: Vec<Slot<T>>,
    free: Vec<u32>,
    generation_counter: u32,
    model: Ghost<Map<Handle, T>>,
}

impl<T> View for Slab<T> {
    type V = Map<Handle, T>;

    /// The stored values, by the handles that name them.
    closed spec fn view(&self) -> Map<Handle, T> {
        Map::new(|h: Handle| self.model@.contains_key(h), |h: Handle| self.slots@[h.index as int].value->0)
    }
}

impl<T> Slab<T> {
    /// The generation the next stored value receives; every live handle has a smaller one.
    pub closed spec fn next_generation(&self) -> nat {
        self.generation_counter as nat
    }

    /// The freed slots waiting for reuse; the last one is reused first.
    pub closed spec fn free_slots(&self) -> Seq<u32> {
        self.free@
    }

    /// The number of slots, occupied or free.
    pub closed spec fn slot_count(&self) -> nat {
        self.slots@.len()
    }

    pub closed spec fn wf(&self) -> bool {
        let n = self.slots@.len();
        &&& self.generation_counter >= 1
        &&& n < self.generation_counter
        &&& self.model@.dom().finite()
        &&& self.free@.len() <= n
        &&& self.model@.dom().len() == n - self.free@.len()
        &&& self.free@.no_duplicates()
        &&& forall|k: int| 0 <= k < self.free@.len() ==> {
            &&& (#[trigger] self.free@[k]) < n
            &&& !self.slots@[self.free@[k] as int].occupied
        }
        &&& forall|i: int| 0 <= i < n ==> {
            let s = #[trigger] self.slots@[i];
            &&& s.generation < self.generation_counter
            &&& s.occupied == (s.value is Some)
            &&& s.occupied ==> self.model@.contains_key(Handle { index: i as u32, generation: s.generation })
            &&& !s.occupied ==> self.free@.contains(i as u32)
        }
        &&& forall|h: Handle| #[trigger] self.model@.contains_key(h) ==> {
            &&& (h.index as int) < n
            &&& self.slots@[h.index as int].occupied
            &&& self.slots@[h.index as int].generation == h.generation
            &&& self.slots@[h.index as int].value is Some
        }
    }

    /// The view holds exactly the handles of the model.
    proof fn lemma_view_dom(&self)
        ensures
            self@.dom() == self.model@.dom(),
    {
        assert(self@.dom() =~= self.model@.dom());
    }

    /// Room for another insertion: generations are not exhausted.
    pub open spec fn can_insert(&self) -> bool {
        self.next_generation() < u32::MAX
    }

    pub proof fn lemma_live_handles(&self)
        requires
            self.wf(),
        ensures
            forall|h: Handle| #[trigger] self@.contains_key(h) ==> h.generation < self.next_generation()
                && h.index != u32::MAX,
            self@.dom().finite(),
            self@.len() + self.free_slots().len() == self.slot_count(),
            self.slot_count() < self.next_generation(),
    {
        self.lemma_view_dom();
    }

    /// An empty slab.
    pub fn new() -> (s: Slab<T>)
        ensures
            s.wf(),
            s@ == Map::<Handle, T>::empty(),
            s.next_generation() == 1,
            s.free_slots() == Seq::<u32>::empty(),
            s.slot_count() == 0,
    {
        Slab { slots: Vec::new(), free: Vec::new(), generation_counter: 1, model: Ghost(Map::empty()) }
    }

    /// Whether `handle` names a stored value.
    pub fn is_valid(&self, handle: Handle) -> (b: bool)
        requires
            self.wf(),
        ensures
            b == self@.contains_key(handle),
    {
        if (handle.index as usize) >= self.slots.len() {
            return false;
        }
        let slot = &self.slots[handle.index as usize];
        let b = slot.occupied && slot.generation == handle.generation;
        proof {
            if b {
                assert(self.slots@[handle.index as int] == *slot);
                assert(handle == Handle { index: handle.index as int as u32, generation: slot.generation });
            }
        }
        b
    }

    /// Number of stored values.
    pub fn len(&self) -> (n: usize)
        requires
            self.wf(),
        ensures
            n == self@.len(),
    {
        proof {
            self.lemma_view_dom();
        }
        self.slots.len() - self.free.len()
    }

    pub fn is_empty(&self) -> (b: bool)
        requires
            self.wf(),
        ensures
            b == (self@.len() == 0),
    {
        self.len() == 0
    }

    /// Remove every value. Generations go on from where they were, so no
    /// handle issued before the call ever names a value again.
    pub fn clear(&mut self)
        requires
            old(self).wf(),
        ensures
            final(self).wf(),
            final(self)@ == Map::<Handle, T>::empty(),
            final(self).next_generation() == old(self).next_generation(),
            final(self).free_slots() == Seq::<u32>::empty(),
            final(self).slot_count() == 0,
    {
        self.slots.clear();
        self.free.clear();
        self.model = Ghost(Map::empty());
    }

    /// The value `handle` names.
    pub fn get(&self, handle: Handle) -> (v: &T)
        requires
            self.wf(),
            self@.contains_key(handle),
        ensures
            *v == self@[handle],
    {
        let slot = &self.slots[handle.index as usize];
        match &slot.value {
            Some(v) => v,
            None => vstd::pervasive::unreached(),
        }
    }
}


impl<T> Slab<T> {
    /// The value `handle` names, to change in place.
    pub fn get_mut(&mut self, handle: Handle) -> (v: &mut T)
        requires
            old(self).wf(),
            old(self)@.contains_key(handle),
        ensures
            *v == old(self)@[handle],
            final(self).wf(),
            final(self)@ == old(self)@.insert(handle, *final(v)),
            final(self).next_generation() == old(self).next_generation(),
            final(self).free_slots() == old(self).free_slots(),
            final(self).slot_count() == old(self).slot_count(),
    {
        let idx = handle.index as usize;
        let slot = &mut self.slots[idx];
        match &mut slot.value {
            Some(v) => v,
            None => vstd::pervasive::unreached(),
        }
    }

    /// Store `value`, returning a handle that names it. The handle is new: no
    /// live handle equals it, and its generation is the slab's next one.
    pub fn insert(&mut self, value: T) -> (h: Handle)
        requires
            old(self).wf(),
            old(self).can_insert(),
        ensures
            final(self).wf(),
            !old(self)@.contains_key(h),
            final(self)@ == old(self)@.insert(h, value),
            h.generation == old(self).next_generation(),
            h.index != u32::MAX,
            final(self).next_generation() == old(self).next_generation() + 1,
            final(self)@.len() == old(self)@.len() + 1,
            old(self).free_slots().len() > 0 ==> {
                &&& h.index == old(self).free_slots().last()
                &&& final(self).free_slots() == old(self).free_slots().drop_last()
                &&& final(self).slot_count() == old(self).slot_count()
            },
            old(self).free_slots().len() == 0 ==> {
                &&& h.index as nat == old(self).slot_count()
                &&& final(self).free_slots() == old(self).free_slots()
                &&& final(self).slot_count() == old(self).slot_count() + 1
            },
    {
        proof {
            self.lemma_view_dom();
        }
        let ghost v = value;
        let g = self.generation_counter;
        match self.free.pop() {
            Some(idx) => {
                let ghost old_free = old(self).free@;
                proof {
                    assert(old_free.last() == idx);
                    assert(self.free@ =~= old_free.drop_last());
                    assert(old_free.contains(idx));
                    assert(!self.free@.contains(idx)) by {
                        if self.free@.contains(idx) {
                            let k = choose|k: int| 0 <= k < self.free@.len() && self.free@[k] == idx;
                            assert(old_free[k] == old_free[old_free.len() - 1]);
                        }
                    }
                    let hk = Handle { index: idx, generation: g };
                    assert(!old(self).model@.contains_key(hk)) by {
                        if old(self).model@.contains_key(hk) {
                            assert(old(self).slots@[idx as int].occupied);
                            assert(!old(self).slots@[old_free[old_free.len() - 1] as int].occupied);
                        }
                    }
                }
                self.slots.set(idx as usize, Slot { generation: g, occupied: true, value: Some(value) });
                self.generation_counter = g + 1;
                let h = Handle { index: idx, generation: g };
                self.model = Ghost(self.model@.insert(h, v));
                proof {
                    assert forall|i: int| 0 <= i < self.slots@.len() implies {
                        let s = #[trigger] self.slots@[i];
                        &&& s.generation < self.generation_counter
                        &&& s.occupied == (s.value is Some)
                        &&& s.occupied ==> self.model@.contains_key(Handle { index: i as u32, generation: s.generation })
                        &&& !s.occupied ==> self.free@.contains(i as u32)
                    } by {
                        if i != idx as int {
                            assert(self.slots@[i] == old(self).slots@[i]);
                            if !self.slots@[i].occupied {
                                let k = choose|k: int| 0 <= k < old_free.len() && old_free[k] == i as u32;
                                if k == old_free.len() - 1 {
                                    assert(old_free[k] == idx);
                                }
                                assert(self.free@[k] == i as u32);
                            }
                        } else {
                            assert(Handle { index: i as u32, generation: g } == h);
                        }
                    }
                    assert forall|k: int| 0 <= k < self.free@.len() implies {
                        &&& (#[trigger] self.free@[k]) < self.slots@.len()
                        &&& !self.slots@[self.free@[k] as int].occupied
                    } by {
                        assert(self.free@[k] == old_free[k]);
                        if self.free@[k] == idx {
                            assert(old_free[k] == old_free[old_free.len() - 1]);
                        }
                    }
                    assert forall|hh: Handle| #[trigger] self.model@.contains_key(hh) implies {
                        &&& (hh.index as int) < self.slots@.len()
                        &&& self.slots@[hh.index as int].occupied
                        &&& self.slots@[hh.index as int].generation == hh.generation
                        &&& self.slots@[hh.index as int].value is Some
                    } by {
                        if hh != h {
                            assert(old(self).model@.contains_key(hh));
                            if hh.index == idx {
                                assert(old(self).slots@[idx as int].occupied);
                                assert(!old(self).slots@[old_free[old_free.len() - 1] as int].occupied);
                            }
                        }
                    }
                }
                proof {
                    self.lemma_view_dom();
                }
                h
            },
            None => {
                let idx = self.slots.len() as u32;
                self.slots.push(Slot { generation: g, occupied: true, value: Some(value) });
                self.generation_counter = g + 1;
                let h = Handle { index: idx, generation: g };
                proof {
                    assert(!old(self).model@.contains_key(h));
                }
                self.model = Ghost(self.model@.insert(h, v));
                proof {
                    assert forall|i: int| 0 <= i < self.slots@.len() implies {
                        let s = #[trigger] self.slots@[i];
                        &&& s.generation < self.generation_counter
                        &&& s.occupied == (s.value is Some)
                        &&& s.occupied ==> self.model@.contains_key(Handle { index: i as u32, generation: s.generation })
                        &&& !s.occupied ==> self.free@.contains(i as u32)
                    } by {
                        if i < old(self).slots@.len() {
                            assert(self.slots@[i] == old(self).slots@[i]);
                        } else {
                            assert(Handle { index: i as u32, generation: g } == h);
                        }
                    }
                    assert forall|hh: Handle| #[trigger] self.model@.contains_key(hh) implies {
                        &&& (hh.index as int) < self.slots@.len()
                        &&& self.slots@[hh.index as int].occupied
                        &&& self.slots@[hh.index as int].generation == hh.generation
                        &&& self.slots@[hh.index as int].value is Some
                    } by {
                        if hh != h {
                            assert(old(self).model@.contains_key(hh));
                        }
                    }
                }
                proof {
                    self.lemma_view_dom();
                }
                h
            },
        }
    }

    /// Remove the value `handle` names and return it; `None`, with nothing
    /// changed, when `handle` names no value.
    pub fn remove(&mut self, handle: Handle) -> (r: Option<T>)
        requires
            old(self).wf(),
        ensures
            final(self).wf(),
            final(self).next_generation() == old(self).next_generation(),
            final(self).slot_count() == old(self).slot_count(),
            old(self)@.contains_key(handle) ==> {
                &&& r == Some(old(self)@[handle])
                &&& final(self)@ == old(self)@.remove(handle)
                &&& final(self)@.len() + 1 == old(self)@.len()
                &&& final(self).free_slots() == old(self).free_slots().push(handle.index)
            },
            !old(self)@.contains_key(handle) ==> {
                &&& r is None
                &&& final(self)@ == old(self)@
                &&& final(self).free_slots() == old(self).free_slots()
            },
    {
        if (handle.index as usize) >= self.slots.len() {
            return None;
        }
        let idx = handle.index as usize;
        if self.slots[idx].generation != handle.generation || !self.slots[idx].occupied {
            proof {
                assert(!self.model@.contains_key(handle));
            }
            return None;
        }
        proof {
            let s = self.slots@[idx as int];
            assert(handle == Handle { index: idx as u32, generation: s.generation });
            assert(self.model@.contains_key(handle));
        }
        let mut taken = Slot { generation: handle.generation, occupied: false, value: None };
        std::mem::swap(&mut self.slots[idx], &mut taken);
        let ghost old_free = self.free@;
        self.free.push(handle.index);
        self.model = Ghost(self.model@.remove(handle));
        proof {
            assert(!old_free.contains(handle.index)) by {
                if old_free.contains(handle.index) {
                    let k = choose|k: int| 0 <= k < old_free.len() && old_free[k] == handle.index;
                    assert(!old(self).slots@[old_free[k] as int].occupied);
                }
            }
            assert forall|i: int| 0 <= i < self.slots@.len() implies {
                let s = #[trigger] self.slots@[i];
                &&& s.generation < self.generation_counter
                &&& s.occupied == (s.value is Some)
                &&& s.occupied ==> self.model@.contains_key(Handle { index: i as u32, generation: s.generation })
                &&& !s.occupied ==> self.free@.contains(i as u32)
            } by {
                if i != idx as int {
                    assert(self.slots@[i] == old(self).slots@[i]);
                    if !self.slots@[i].occupied {
                        let k = choose|k: int| 0 <= k < old_free.len() && old_free[k] == i as u32;
                        assert(self.free@[k] == i as u32);
                    } else {
                        assert(Handle { index: i as u32, generation: self.slots@[i].generation } != handle);
                    }
                } else {
                    assert(self.free@[self.free@.len() - 1] == i as u32);
                }
            }
            assert forall|k: int| 0 <= k < self.free@.len() implies {
                &&& (#[trigger] self.free@[k]) < self.slots@.len()
                &&& !self.slots@[self.free@[k] as int].occupied
            } by {
                if k < old_free.len() {
                    assert(self.free@[k] == old_free[k]);
                }
            }
            assert forall|hh: Handle| #[trigger] self.model@.contains_key(hh) implies {
                &&& (hh.index as int) < self.slots@.len()
                &&& self.slots@[hh.index as int].occupied
                &&& self.slots@[hh.index as int].generation == hh.generation
                &&& self.slots@[hh.index as int].value is Some
            } by {
                assert(old(self).model@.contains_key(hh));
                if hh.index == handle.index {
                    assert(hh.generation == handle.generation);
                }
            }
        }
        proof {
            self.lemma_view_dom();
            old(self).lemma_view_dom();
        }
        taken.value
    }
}


/// The handles of the occupied slots among the first `n`, in slot order.
spec fn handles_upto<T>(slots: Seq<Slot<T>>, n: int) -> Seq<Handle>
    decreases n,
{
    if n <= 0 {
        Seq::empty()
    } else {
        handles_upto(slots, n - 1) + if slots[n - 1].occupied {
            seq![Handle { index: (n - 1) as u32, generation: slots[n - 1].generation }]
        } else {
            Seq::empty()
        }
    }
}

impl<T> Slab<T> {
    /// The handles of the stored values, in slot order.
    pub closed spec fn live_handles(&self) -> Seq<Handle> {
        handles_upto(self.slots@, self.slots@.len() as int)
    }
}

impl<T> Slab<T> {
    /// Handles of the stored values, in slot order.
    pub fn iter_handles(&self) -> (hs: Vec<Handle>)
        requires
            self.wf(),
        ensures
            hs.len() == self@.len(),
            forall|i: int| 0 <= i < hs.len() ==> self@.contains_key(#[trigger] hs[i]),
            forall|h: Handle| #[trigger] self@.contains_key(h) ==> hs@.contains(h),
            forall|i: int, j: int| 0 <= i < j < hs.len() ==> hs[i].index < hs[j].index,
            hs@ == self.live_handles(),
    {
        let mut hs: Vec<Handle> = Vec::new();
        let n = self.slots.len();
        let mut i: usize = 0;
        while i < n
            invariant
                self.wf(),
                n == self.slots@.len(),
                i <= n,
                forall|k: int| 0 <= k < hs.len() ==> self@.contains_key(#[trigger] hs[k]),
                forall|k: int| 0 <= k < hs.len() ==> (#[trigger] hs[k]).index < i,
                forall|h: Handle| #[trigger] self@.contains_key(h) && (h.index as int) < i ==> hs@.contains(h),
                forall|a: int, b: int| 0 <= a < b < hs.len() ==> hs[a].index < hs[b].index,
                hs@ == handles_upto(self.slots@, i as int),
            decreases n - i,
        {
            let slot = &self.slots[i];
            if slot.occupied {
                let h = Handle { index: i as u32, generation: slot.generation };
                proof {
                    assert(self.slots@[i as int] == *slot);
                }
                let ghost old_hs = hs@;
                hs.push(h);
                proof {
                    assert forall|hh: Handle| #[trigger] self@.contains_key(hh) && (hh.index as int) < i + 1
                        implies hs@.contains(hh) by {
                        if (hh.index as int) == i {
                            assert(hh == h);
                            assert(hs@[hs@.len() - 1] == h);
                        } else {
                            assert(old_hs.contains(hh));
                            let k = choose|k: int| 0 <= k < old_hs.len() && old_hs[k] == hh;
                            assert(hs@[k] == old_hs[k]);
                        }
                    }
                }
            } else {
                proof {
                    assert forall|hh: Handle| #[trigger] self@.contains_key(hh) && (hh.index as int) < i + 1
                        implies hs@.contains(hh) by {
                        if (hh.index as int) == i {
                            assert(self.slots@[i as int].occupied);
                        }
                    }
                }
            }
            i = i + 1;
        }
        proof {
            assert(hs@.no_duplicates()) by {
                assert forall|a: int, b: int| 0 <= a < hs@.len() && 0 <= b < hs@.len() && a != b
                    implies hs@[a] != hs@[b] by {
                    if a < b {
                        assert(hs[a].index < hs[b].index);
                    } else {
                        assert(hs[b].index < hs[a].index);
                    }
                }
            }
            hs@.unique_seq_to_set();
            assert(hs@.to_set() =~= self@.dom()) by {
                assert forall|h: Handle| hs@.to_set().contains(h) implies self@.dom().contains(h) by {
                    let k = choose|k: int| 0 <= k < hs@.len() && hs@[k] == h;
                    assert(self@.contains_key(hs[k]));
                }
            }
        }
        hs
    }
}

impl<T: Clone> Slab<T> {
    /// Every stored value, cloned, with its handle, in slot order.
    pub fn clone_all(&self) -> (r: Vec<(Handle, T)>)
        requires
            self.wf(),
        ensures
            r.len() == self@.len(),
            forall|i: int| 0 <= i < r.len() ==> {
                &&& self@.contains_key(#[trigger] r[i].0)
                &&& cloned(self@[r[i].0], r[i].1)
            },
            forall|h: Handle| #[trigger] self@.contains_key(h) ==> exists|i: int| 0 <= i < r.len() && r[i].0 == h,
            forall|i: int, j: int| 0 <= i < j < r.len() ==> r[i].0.index < r[j].0.index,
            r@.map_values(|p: (Handle, T)| p.0) == self.live_handles(),
    {
        let hs = self.iter_handles();
        let mut r: Vec<(Handle, T)> = Vec::new();
        let mut k: usize = 0;
        while k < hs.len()
            invariant
                self.wf(),
                k <= hs.len(),
                r.len() == k,
                forall|i: int| 0 <= i < hs.len() ==> self@.contains_key(#[trigger] hs[i]),
                forall|i: int| 0 <= i < k ==> r[i].0 == #[trigger] hs[i],
                forall|i: int| 0 <= i < k ==> cloned(self@[hs[i]], #[trigger] r[i].1),
            decreases hs.len() - k,
        {
            let h = hs[k];
            let v = self.get(h).clone();
            r.push((h, v));
            k = k + 1;
        }
        proof {
            assert forall|h: Handle| #[trigger] self@.contains_key(h) implies exists|i: int|
                0 <= i < r.len() && r[i].0 == h by {
                let i = choose|i: int| 0 <= i < hs@.len() && hs@[i] == h;
                assert(r[i].0 == hs[i]);
            }
            assert forall|i: int, j: int| 0 <= i < j < r.len() implies r[i].0.index < r[j].0.index by {
                assert(r[i].0 == hs[i]);
                assert(r[j].0 == hs[j]);
            }
            assert forall|i: int| 0 <= i < r.len() implies {
                &&& self@.contains_key(#[trigger] r[i].0)
                &&& cloned(self@[r[i].0], r[i].1)
            } by {
                assert(r[i].0 == hs[i]);
            }
            assert(r@.map_values(|p: (Handle, T)| p.0) =~= hs@);
        }
        r
    }
}

impl<T> Default for Slab<T> {
    fn default() -> (s: Slab<T>)
        ensures
            s.wf(),
            s@ == Map::<Handle, T>::empty(),
            s.next_generation() == 1,
    {
        Slab::new()
    }
}

/// `clone_all` pairs exactly the handles `iter_handles` lists, in the same
/// order, each with a clone of its value.
pub proof fn lemma_clone_all_handles<T>(s: Slab<T>, hs: Seq<Handle>, r: Seq<(Handle, T)>)
    requires
        hs == s.live_handles(),
        r.map_values(|p: (Handle, T)| p.0) == s.live_handles(),
    ensures
        r.len() == hs.len(),
        forall|i: int| 0 <= i < r.len() ==> #[trigger] r[i].0 == hs[i],
{
    assert forall|i: int| 0 <= i < r.len() implies #[trigger] r[i].0 == hs[i] by {
        assert(r.map_values(|p: (Handle, T)| p.0)[i] == r[i].0);
    }
}

/// Removing the handle that an insertion returned gives the inserted value
/// back and leaves the slab holding what it held before the insertion.
pub proof fn lemma_insert_then_remove<T>(s0: Slab<T>, s1: Slab<T>, s2: Slab<T>, v: T, h: Handle, r: Option<T>)
    requires
        s0.wf(),
        !s0@.contains_key(h),
        s1@ == s0@.insert(h, v),
        s1@.contains_key(h) ==> r == Some(s1@[h]) && s2@ == s1@.remove(h),
        !s1@.contains_key(h) ==> r is None && s2@ == s1@,
    ensures
        r == Some(v),
        s2@ == s0@,
{
    assert(s2@ =~= s0@);
}

/// A handle whose value is gone stays stale: neither an insertion nor a
/// removal makes it name a value again.
pub proof fn lemma_stale_stays_stale<T>(s0: Slab<T>, s1: Slab<T>, h: Handle, hn: Handle, v: T, hr: Handle)
    requires
        s0.wf(),
        h.generation < s0.next_generation(),
        !s0@.contains_key(h),
    ensures
        ({
            // after `insert(v)` returned `hn`
            (!s0@.contains_key(hn) && s1@ == s0@.insert(hn, v) && hn.generation == s0.next_generation()
                && s1.next_generation() == s0.next_generation() + 1)
            ==> (!s1@.contains_key(h) && h.generation < s1.next_generation())
        }),
        ({
            // after `remove(hr)`
            (s1.next_generation() == s0.next_generation() && (s0@.contains_key(hr) ==> s1@ == s0@.remove(hr))
                && (!s0@.contains_key(hr) ==> s1@ == s0@))
            ==> (!s1@.contains_key(h) && h.generation < s1.next_generation())
        }),
{
}

} // verus!
