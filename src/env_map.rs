use vstd::prelude::*;

verus! {

/// A table from variable name to value, each name at most once.
///
/// The entries keep the order in which their names were first inserted.
pub struct EnvMap {
    entries: Vec<(String, String)>,
    contents: Ghost<Map<Seq<char>, Seq<char>>>,
}

impl View for EnvMap {
    type V = Map<Seq<char>, Seq<char>>;

    closed spec fn view(&self) -> Map<Seq<char>, Seq<char>> {
        self.contents@
    }
}

impl EnvMap {
    pub closed spec fn wf(&self) -> bool {
        let e = self.entries@;
        let m = self.contents@;
        &&& forall|i: int, j: int|
            0 <= i < j < e.len() ==> #[trigger] e[i].0@ != #[trigger] e[j].0@
        &&& forall|i: int|
            0 <= i < e.len() ==> m.contains_key(#[trigger] e[i].0@) && m[e[i].0@] == e[i].1@
        &&& forall|k: Seq<char>|
            #[trigger] m.contains_key(k) ==> exists|i: int| 0 <= i < e.len() && e[i].0@ == k
    }

    pub fn new() -> (r: EnvMap)
        ensures
            r.wf(),
            r@ == Map::<Seq<char>, Seq<char>>::empty(),
    {
        EnvMap { entries: Vec::new(), contents: Ghost(Map::empty()) }
    }

    /// Number of distinct names.
    pub fn len(&self) -> (r: usize)
        requires
            self.wf(),
        ensures
            r == self@.dom().len(),
    {
        proof { self.lemma_dom_len(); }
        self.entries.len()
    }

    proof fn lemma_dom_len(&self)
        requires
            self.wf(),
        ensures
            self@.dom().finite(),
            self@.dom().len() == self.entries@.len(),
        decreases self.entries@.len(),
    {
        let e = self.entries@;
        let keys = Seq::new(e.len(), |i: int| e[i].0@);
        assert forall|i: int, j: int| 0 <= i < keys.len() && 0 <= j < keys.len() && i != j
            implies keys[i] != keys[j] by {
            if i < j {
                assert(e[i].0@ != e[j].0@);
            } else {
                assert(e[j].0@ != e[i].0@);
            }
        }
        keys.unique_seq_to_set();
        assert(keys.to_set() =~= self@.dom()) by {
            assert forall|k: Seq<char>| self@.dom().contains(k) implies keys.to_set().contains(k) by {
                let i = choose|i: int| 0 <= i < e.len() && e[i].0@ == k;
                assert(keys[i] == k);
            }
            assert forall|k: Seq<char>| keys.to_set().contains(k) implies self@.dom().contains(k) by {
                let i = choose|i: int| 0 <= i < keys.len() && keys[i] == k;
                assert(e[i].0@ == k);
            }
        }
    }

    /// Sets `name` to `value`, replacing the value that `name` had.
    pub fn insert(&mut self, name: String, value: String)
        requires
            old(self).wf(),
        ensures
            final(self).wf(),
            final(self)@ == old(self)@.insert(name@, value@),
    {
        let ghost m0 = self.contents@;
        assert(m0 == old(self)@);
        let mut i: usize = 0;
        while i < self.entries.len()
            invariant
                self.wf(),
                self.contents@ == m0,
                m0 == old(self)@,
                i <= self.entries@.len(),
                forall|j: int| 0 <= j < i ==> #[trigger] self.entries@[j].0@ != name@,
            decreases self.entries@.len() - i,
        {
            if self.entries[i].0 == name {
                let ghost e0 = self.entries@;
                let ghost k = name@;
                let ghost v = value@;
                assert(e0[i as int].0@ == k);
                self.entries.set(i, (name, value));
                self.contents = Ghost(m0.insert(k, v));
                proof {
                    let e = self.entries@;
                    let m = self.contents@;
                    assert forall|j: int| 0 <= j < e.len() implies m.contains_key(#[trigger] e[j].0@)
                        && m[e[j].0@] == e[j].1@ by {
                        if j != i {
                            assert(e[j] == e0[j]);
                            assert(e0[j].0@ != e0[i as int].0@) by {
                                if j < i { assert(e0[j].0@ != e0[i as int].0@); }
                                else { assert(e0[i as int].0@ != e0[j].0@); }
                            }
                        }
                    }
                    assert forall|k: Seq<char>| #[trigger] m.contains_key(k)
                        implies exists|j: int| 0 <= j < e.len() && e[j].0@ == k by {
                        if k == e0[i as int].0@ {
                            assert(e[i as int].0@ == k);
                        } else {
                            let j = choose|j: int| 0 <= j < e0.len() && e0[j].0@ == k;
                            assert(e[j] == e0[j]);
                        }
                    }
                    assert forall|a: int, b: int| 0 <= a < b < e.len()
                        implies #[trigger] e[a].0@ != #[trigger] e[b].0@ by {
                        assert(e0[a].0@ != e0[b].0@);
                    }
                }
                return;
            }
            i = i + 1;
        }
        let ghost e0 = self.entries@;
        let ghost k = name@;
        self.entries.push((name, value));
        self.contents = Ghost(m0.insert(k, value@));
        proof {
            let e = self.entries@;
            let m = self.contents@;
            assert(e[e0.len() as int].0@ == k);
            assert forall|j: int| 0 <= j < e.len() implies m.contains_key(#[trigger] e[j].0@)
                && m[e[j].0@] == e[j].1@ by {
                if j < e0.len() {
                    assert(e[j] == e0[j]);
                }
            }
            assert forall|q: Seq<char>| #[trigger] m.contains_key(q)
                implies exists|j: int| 0 <= j < e.len() && e[j].0@ == q by {
                if q == k {
                    assert(e[e0.len() as int].0@ == q);
                } else {
                    let j = choose|j: int| 0 <= j < e0.len() && e0[j].0@ == q;
                    assert(e[j] == e0[j]);
                }
            }
            assert forall|a: int, b: int| 0 <= a < b < e.len()
                implies #[trigger] e[a].0@ != #[trigger] e[b].0@ by {
                if b < e0.len() {
                    assert(e0[a].0@ != e0[b].0@);
                } else {
                    assert(e[a] == e0[a]);
                }
            }
        }
    }

    /// The value of `name`, if the table has one.
    pub fn get(&self, name: &str) -> (r: Option<&String>)
        requires
            self.wf(),
        ensures
            r is Some <==> self@.contains_key(name@),
            r matches Some(v) ==> v@ == self@[name@],
    {
        let key = String::from_str(name);
        let mut i: usize = 0;
        while i < self.entries.len()
            invariant
                self.wf(),
                key@ == name@,
                i <= self.entries@.len(),
                forall|j: int| 0 <= j < i ==> #[trigger] self.entries@[j].0@ != name@,
            decreases self.entries@.len() - i,
        {
            if self.entries[i].0 == key {
                return Some(&self.entries[i].1);
            }
            i = i + 1;
        }
        proof {
            if self@.contains_key(name@) {
                let j = choose|j: int| 0 <= j < self.entries@.len() && self.entries@[j].0@ == name@;
                assert(self.entries@[j].0@ != name@);
            }
        }
        None
    }

    /// The (name, value) pairs, each name once, to hand to a process.
    pub fn into_pairs(self) -> (r: Vec<(String, String)>)
        requires
            self.wf(),
        ensures
            forall|i: int, j: int| 0 <= i < j < r@.len() ==> #[trigger] r@[i].0@ != #[trigger] r@[j].0@,
            forall|i: int| 0 <= i < r@.len() ==> self@.contains_key(#[trigger] r@[i].0@)
                && self@[r@[i].0@] == r@[i].1@,
            forall|k: Seq<char>| #[trigger] self@.contains_key(k)
                ==> exists|i: int| 0 <= i < r@.len() && r@[i].0@ == k,
    {
        self.entries
    }
}

} // verus!
