//! Hot reloading: deciding, from the modification times observed for the
//! watched script files, when a script must be reloaded, and whether a source
//! text still needs compiling.
//!
//! The program around the library reads the files' modification times and
//! sources; this module keeps what was seen and makes the decisions.
use vstd::prelude::*;

verus! {

/// What the reloader remembers of each path: the last modification time seen.
pub open spec fn times_map(entries: Seq<(String, u128)>) -> Map<Seq<char>, u128>
    decreases entries.len(),
{
    if entries.len() == 0 {
        Map::empty()
    } else {
        times_map(entries.drop_last()).insert(entries.last().0@, entries.last().1)
    }
}

/// The remembered times after one observation of `path` at time `t`, and whether
/// the observation counts as a change: a newer time than the one remembered, or
/// a first time for the path.
pub open spec fn observe(m: Map<Seq<char>, u128>, path: Seq<char>, t: Option<u128>) -> (Map<Seq<char>, u128>, bool) {
    match t {
        Some(t) => if !m.contains_key(path) || t > m[path] { (m.insert(path, t), true) } else { (m, false) },
        None => (m, false),
    }
}

/// The remembered times after observing each path in turn, and whether any
/// observation was a change.
pub open spec fn observe_all(m: Map<Seq<char>, u128>, obs: Seq<(Seq<char>, Option<u128>)>) -> (Map<Seq<char>, u128>, bool)
    decreases obs.len(),
{
    if obs.len() == 0 {
        (m, false)
    } else {
        let (m1, c1) = observe_all(m, obs.drop_last());
        let (m2, c2) = observe(m1, obs.last().0, obs.last().1);
        (m2, c1 || c2)
    }
}

pub open spec fn obs_view(obs: Seq<(String, Option<u128>)>) -> Seq<(Seq<char>, Option<u128>)> {
    obs.map_values(|o: (String, Option<u128>)| (o.0@, o.1))
}

/// Watches script files and holds the virtual machine that runs them.
pub struct HotReloader<V> {
    mtimes: Vec<(String, u128)>,
    vm: V,
    last_source: Option<String>,
}

impl<V> HotReloader<V> {
    /// The last modification time seen for each path.
    pub closed spec fn times(&self) -> Map<Seq<char>, u128> {
        times_map(self.mtimes@)
    }

    /// The source text last compiled, if any.
    pub closed spec fn compiled(&self) -> Option<Seq<char>> {
        match self.last_source {
            Some(s) => Some(s@),
            None => None,
        }
    }

    pub closed spec fn machine(&self) -> V {
        self.vm
    }

    /// The remembered paths are distinct.
    pub closed spec fn wf(&self) -> bool {
        forall|i: int, j: int| 0 <= i < j < self.mtimes@.len() ==> self.mtimes@[i].0@ != self.mtimes@[j].0@
    }

    proof fn lemma_times_lookup(entries: Seq<(String, u128)>, i: int)
        requires
            0 <= i < entries.len(),
            forall|a: int, b: int| 0 <= a < b < entries.len() ==> entries[a].0@ != entries[b].0@,
        ensures
            times_map(entries).contains_key(entries[i].0@),
            times_map(entries)[entries[i].0@] == entries[i].1,
        decreases entries.len(),
    {
        if i < entries.len() - 1 {
            Self::lemma_times_lookup(entries.drop_last(), i);
        }
    }

    proof fn lemma_times_absent(entries: Seq<(String, u128)>, p: Seq<char>)
        requires
            forall|a: int| 0 <= a < entries.len() ==> entries[a].0@ != p,
        ensures
            !times_map(entries).contains_key(p),
        decreases entries.len(),
    {
        if entries.len() > 0 {
            Self::lemma_times_absent(entries.drop_last(), p);
        }
    }

    /// Record one observation.
    fn observe_one(&mut self, path: &String, t: Option<u128>) -> (changed: bool)
        requires
            old(self).wf(),
        ensures
            final(self).wf(),
            (final(self).times(), changed) == observe(old(self).times(), path@, t),
            final(self).compiled() == old(self).compiled(),
            final(self).machine() == old(self).machine(),
    {
        let tv = match t {
            Some(tv) => tv,
            None => return false,
        };
        let ghost m = old(self).times();
        let mut i: usize = 0;
        while i < self.mtimes.len()
            invariant
                i <= self.mtimes@.len(),
                self.mtimes@ == old(self).mtimes@,
                self.vm == old(self).vm,
                self.last_source == old(self).last_source,
                m == times_map(self.mtimes@),
                m == old(self).times(),
                t == Some(tv),
                self.wf(),
                forall|a: int| 0 <= a < i ==> self.mtimes@[a].0@ != path@,
            decreases self.mtimes@.len() - i,
        {
            if self.mtimes[i].0 == *path {
                proof {
                    Self::lemma_times_lookup(self.mtimes@, i as int);
                    assert(m.contains_key(path@));
                }
                let prev = self.mtimes[i].1;
                assert(m[path@] == prev);
                if tv > prev {
                    let ghost before = self.mtimes@;
                    let key = self.mtimes[i].0.clone();
                    self.mtimes.set(i, (key, tv));
                    proof {
                        assert forall|a: int, b: int| 0 <= a < b < self.mtimes@.len() implies self.mtimes@[a].0@
                            != self.mtimes@[b].0@ by {
                            assert(before[a].0@ != before[b].0@);
                        }
                        Self::lemma_times_update(before, i as int, tv);
                        assert(self.mtimes@ == before.update(i as int, (before[i as int].0, tv)));
                        assert(self.times() == m.insert(path@, tv));
                    }
                    return true;
                } else {
                    return false;
                }
            }
            i = i + 1;
        }
        proof {
            Self::lemma_times_absent(self.mtimes@, path@);
        }
        let ghost before = self.mtimes@;
        self.mtimes.push((path.clone(), tv));
        proof {
            assert(self.mtimes@.drop_last() =~= before);
            assert forall|a: int, b: int| 0 <= a < b < self.mtimes@.len() implies self.mtimes@[a].0@
                != self.mtimes@[b].0@ by {
                if b < before.len() {
                    assert(before[a].0@ != before[b].0@);
                }
            }
        }
        true
    }

    proof fn lemma_times_update(entries: Seq<(String, u128)>, i: int, t: u128)
        requires
            0 <= i < entries.len(),
            forall|a: int, b: int| 0 <= a < b < entries.len() ==> entries[a].0@ != entries[b].0@,
        ensures
            times_map(entries.update(i, (entries[i].0, t))) == times_map(entries).insert(entries[i].0@, t),
        decreases entries.len(),
    {
        let u = entries.update(i, (entries[i].0, t));
        if i == entries.len() - 1 {
            assert(u.drop_last() =~= entries.drop_last());
            Self::lemma_times_absent(entries.drop_last(), entries[i].0@);
            assert(times_map(u) =~= times_map(entries).insert(entries[i].0@, t));
        } else {
            Self::lemma_times_update(entries.drop_last(), i, t);
            assert(u.drop_last() =~= entries.drop_last().update(i, (entries[i].0, t)));
            assert(times_map(u) =~= times_map(entries).insert(entries[i].0@, t));
        }
    }

    /// A reloader for a machine, remembering the times first observed for the
    /// watched paths (paths whose time could not be read are not remembered).
    pub fn new(observed: &Vec<(String, Option<u128>)>, vm: V) -> (r: HotReloader<V>)
        ensures
            r.wf(),
            r.times() == observe_all(Map::empty(), obs_view(observed@)).0,
            r.compiled() is None,
            r.machine() == vm,
    {
        let mut r = HotReloader { mtimes: Vec::new(), vm, last_source: None };
        r.record(observed);
        r
    }

    fn record(&mut self, observed: &Vec<(String, Option<u128>)>) -> (changed: bool)
        requires
            old(self).wf(),
        ensures
            final(self).wf(),
            (final(self).times(), changed) == observe_all(old(self).times(), obs_view(observed@)),
            final(self).compiled() == old(self).compiled(),
            final(self).machine() == old(self).machine(),
    {
        let mut changed = false;
        let mut k: usize = 0;
        while k < observed.len()
            invariant
                k <= observed@.len(),
                self.wf(),
                (self.times(), changed) == observe_all(old(self).times(), obs_view(observed@).take(k as int)),
                self.compiled() == old(self).compiled(),
                self.machine() == old(self).machine(),
            decreases observed@.len() - k,
        {
            let c = self.observe_one(&observed[k].0, observed[k].1);
            proof {
                let ov = obs_view(observed@);
                assert(ov.take(k + 1).drop_last() =~= ov.take(k as int));
            }
            changed = changed || c;
            k = k + 1;
        }
        proof {
            assert(obs_view(observed@).take(observed@.len() as int) =~= obs_view(observed@));
        }
        changed
    }

    /// Record the modification times observed now for the watched paths, with
    /// `source` the script's text now: true when a reload is to happen, that
    /// is when a file changed and its text is not the one last compiled (a file
    /// only touched reloads nothing).
    pub fn tick(&mut self, observed: &Vec<(String, Option<u128>)>, source: &str) -> (reload: bool)
        requires
            old(self).wf(),
        ensures
            final(self).wf(),
            final(self).times() == observe_all(old(self).times(), obs_view(observed@)).0,
            reload == (observe_all(old(self).times(), obs_view(observed@)).1 && old(self).compiled() != Some(source@)),
            final(self).compiled() == old(self).compiled(),
            final(self).machine() == old(self).machine(),
    {
        let changed = self.record(observed);
        changed && self.differs(source)
    }

    /// `source` is not the text last compiled.
    fn differs(&self, source: &str) -> (d: bool)
        ensures
            d == (self.compiled() != Some(source@)),
    {
        match &self.last_source {
            Some(s) => {
                let t = source.to_string();
                !(*s == t)
            },
            None => true,
        }
    }

    /// Force a reload, whatever the files' modification times: whether the
    /// script's text `source` needs compiling, which it does unless it is the
    /// text last compiled.
    pub fn force_reload(&self, source: &str) -> (reload: bool)
        ensures
            reload == (self.compiled() != Some(source@)),
    {
        self.differs(source)
    }

    /// Remember `source` as the source last compiled.
    pub fn mark_compiled(&mut self, source: String)
        requires
            old(self).wf(),
        ensures
            final(self).wf(),
            final(self).compiled() == Some(source@),
            final(self).times() == old(self).times(),
            final(self).machine() == old(self).machine(),
    {
        self.last_source = Some(source);
    }

    /// The virtual machine.
    pub fn vm(&self) -> (v: &V)
        ensures
            *v == self.machine(),
    {
        &self.vm
    }

    /// The virtual machine, to run or replace code in.
    pub fn vm_mut(&mut self) -> (v: &mut V)
        ensures
            *v == old(self).machine(),
            final(self).machine() == *final(v),
            final(self).times() == old(self).times(),
            final(self).compiled() == old(self).compiled(),
    {
        &mut self.vm
    }
}

/// Every observed time is at or before the one remembered for its path.
pub open spec fn covers(m: Map<Seq<char>, u128>, obs: Seq<(Seq<char>, Option<u128>)>) -> bool {
    forall|i: int| 0 <= i < obs.len() && (#[trigger] obs[i]).1 is Some ==> m.contains_key(obs[i].0) && obs[i].1.unwrap()
        <= m[obs[i].0]
}

proof fn lemma_covered_unchanged(m: Map<Seq<char>, u128>, obs: Seq<(Seq<char>, Option<u128>)>)
    requires
        covers(m, obs),
    ensures
        observe_all(m, obs) == (m, false),
    decreases obs.len(),
{
    if obs.len() > 0 {
        let d = obs.drop_last();
        assert forall|i: int| 0 <= i < d.len() && (#[trigger] d[i]).1 is Some implies m.contains_key(d[i].0)
            && d[i].1.unwrap() <= m[d[i].0] by {
            assert(d[i] == obs[i]);
        }
        lemma_covered_unchanged(m, d);
        assert(obs[obs.len() - 1] == obs.last());
    }
}

proof fn lemma_observe_all_covers(m: Map<Seq<char>, u128>, obs: Seq<(Seq<char>, Option<u128>)>)
    ensures
        covers(observe_all(m, obs).0, obs),
        forall|p: Seq<char>| #[trigger] m.contains_key(p) ==> observe_all(m, obs).0.contains_key(p)
            && m[p] <= observe_all(m, obs).0[p],
    decreases obs.len(),
{
    if obs.len() > 0 {
        let d = obs.drop_last();
        lemma_observe_all_covers(m, d);
        let m1 = observe_all(m, d).0;
        let m2 = observe_all(m, obs).0;
        assert(m2 == observe(m1, obs.last().0, obs.last().1).0);
        assert forall|p: Seq<char>| #[trigger] m1.contains_key(p) implies m2.contains_key(p) && m1[p] <= m2[p] by {
        }
        assert forall|i: int| 0 <= i < obs.len() && (#[trigger] obs[i]).1 is Some implies m2.contains_key(obs[i].0)
            && obs[i].1.unwrap() <= m2[obs[i].0] by {
            if i < d.len() {
                assert(d[i] == obs[i]);
            }
        }
    }
}

/// Observing again the times that a tick has just recorded reports no change
/// and leaves what is remembered as it is.
pub proof fn lemma_tick_twice(m: Map<Seq<char>, u128>, obs: Seq<(Seq<char>, Option<u128>)>)
    ensures
        observe_all(observe_all(m, obs).0, obs) == (observe_all(m, obs).0, false),
{
    lemma_observe_all_covers(m, obs);
    lemma_covered_unchanged(observe_all(m, obs).0, obs);
}

} // verus!
