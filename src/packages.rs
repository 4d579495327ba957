use vstd::prelude::*;

verus! {

/// A set of dependency names, held without duplicates.
pub struct DependencySet {
    names: Vec<String>,
    members: Ghost<Set<Seq<char>>>,
}

impl View for DependencySet {
    type V = Set<Seq<char>>;

    closed spec fn view(&self) -> Set<Seq<char>> {
        self.members@
    }
}

impl DependencySet {
    pub closed spec fn wf(&self) -> bool {
        &&& forall|i: int, j: int|
            0 <= i < j < self.names@.len() ==> self.names@[i]@ != self.names@[j]@
        &&& forall|n: Seq<char>|
            self.members@.contains(n) <==> exists|i: int|
                0 <= i < self.names@.len() && #[trigger] self.names@[i]@ == n
    }

    pub fn new() -> (r: DependencySet)
        ensures
            r.wf(),
            r@ == Set::<Seq<char>>::empty(),
    {
        DependencySet { names: Vec::new(), members: Ghost(Set::empty()) }
    }

    pub fn contains(&self, name: &String) -> (r: bool)
        requires
            self.wf(),
        ensures
            r == self@.contains(name@),
    {
        let mut i: usize = 0;
        while i < self.names.len()
            invariant
                self.wf(),
                i <= self.names@.len(),
                forall|j: int| 0 <= j < i ==> self.names@[j]@ != name@,
            decreases self.names@.len() - i,
        {
            if self.names[i] == *name {
                return true;
            }
            i = i + 1;
        }
        false
    }

    pub fn insert(&mut self, name: String)
        requires
            old(self).wf(),
        ensures
            final(self).wf(),
            final(self)@ == old(self)@.insert(name@),
    {
        if !self.contains(&name) {
            let ghost n = name@;
            self.names.push(name);
            self.members = Ghost(self.members@.insert(n));
            assert forall|m: Seq<char>|
                self.members@.contains(m) <==> exists|i: int|
                    0 <= i < self.names@.len() && #[trigger] self.names@[i]@ == m by {
                if m == n {
                    assert(self.names@[self.names@.len() - 1]@ == m);
                } else if old(self).members@.contains(m) {
                    let i = choose|i: int|
                        0 <= i < old(self).names@.len() && #[trigger] old(self).names@[i]@ == m;
                    assert(self.names@[i]@ == m);
                }
            }
        } else {
            assert(self.members@.insert(name@) =~= self.members@);
        }
    }

    /// The names, each once, in no particular order.
    pub fn to_vec(&self) -> (r: Vec<String>)
        requires
            self.wf(),
        ensures
            forall|n: Seq<char>|
                self@.contains(n) <==> exists|i: int| 0 <= i < r@.len() && #[trigger] r@[i]@ == n,
            forall|i: int, j: int| 0 <= i < j < r@.len() ==> r@[i]@ != r@[j]@,
    {
        self.names.clone()
    }
}

} // verus!

verus! {

/// Map from package name to the exact version it is pinned to, held as a
/// vector of pairs with unique names.
pub struct Packages {
    entries: Vec<(String, String)>,
    mapping: Ghost<Map<Seq<char>, Seq<char>>>,
}

impl View for Packages {
    type V = Map<Seq<char>, Seq<char>>;

    closed spec fn view(&self) -> Map<Seq<char>, Seq<char>> {
        self.mapping@
    }
}

impl Packages {
    pub closed spec fn wf(&self) -> bool {
        &&& forall|i: int, j: int|
            0 <= i < j < self.entries@.len() ==> self.entries@[i].0@ != self.entries@[j].0@
        &&& forall|n: Seq<char>|
            self.mapping@.contains_key(n) <==> exists|i: int|
                0 <= i < self.entries@.len() && #[trigger] self.entries@[i].0@ == n
        &&& forall|i: int|
            0 <= i < self.entries@.len() ==> self.mapping@[#[trigger] self.entries@[i].0@]
                == self.entries@[i].1@
    }

    pub fn new() -> (r: Packages)
        ensures
            r.wf(),
            r@ == Map::<Seq<char>, Seq<char>>::empty(),
    {
        Packages { entries: Vec::new(), mapping: Ghost(Map::empty()) }
    }

    fn position(&self, name: &String) -> (r: Option<usize>)
        requires
            self.wf(),
        ensures
            match r {
                Some(i) => i < self.entries@.len() && self.entries@[i as int].0@ == name@,
                None => !self@.contains_key(name@),
            },
    {
        let mut i: usize = 0;
        while i < self.entries.len()
            invariant
                self.wf(),
                i <= self.entries@.len(),
                forall|j: int| 0 <= j < i ==> self.entries@[j].0@ != name@,
            decreases self.entries@.len() - i,
        {
            if self.entries[i].0 == *name {
                return Some(i);
            }
            i = i + 1;
        }
        None
    }

    /// The version pinned for `name`, if it is in the map.
    pub fn get(&self, name: &String) -> (r: Option<String>)
        requires
            self.wf(),
        ensures
            match r {
                Some(v) => self@.contains_key(name@) && v@ == self@[name@],
                None => !self@.contains_key(name@),
            },
    {
        match self.position(name) {
            Some(i) => Some(self.entries[i].1.clone()),
            None => None,
        }
    }

    pub fn is_empty(&self) -> (r: bool)
        requires
            self.wf(),
        ensures
            r == (self@ == Map::<Seq<char>, Seq<char>>::empty()),
    {
        if self.entries.len() == 0 {
            assert(self@ =~= Map::<Seq<char>, Seq<char>>::empty());
            true
        } else {
            assert(self@.contains_key(self.entries@[0].0@));
            false
        }
    }

    /// Maps `name` to `version`, replacing what it was mapped to before.
    pub fn insert(&mut self, name: String, version: String)
        requires
            old(self).wf(),
        ensures
            final(self).wf(),
            final(self)@ == old(self)@.insert(name@, version@),
    {
        let ghost n = name@;
        let ghost v = version@;
        let ghost m = self.mapping@.insert(n, v);
        match self.position(&name) {
            Some(i) => {
                self.entries.set(i, (name, version));
                self.mapping = Ghost(m);
                assert forall|k: Seq<char>|
                    self.mapping@.contains_key(k) <==> exists|j: int|
                        0 <= j < self.entries@.len() && #[trigger] self.entries@[j].0@ == k by {
                    if old(self).mapping@.contains_key(k) {
                        let j = choose|j: int|
                            0 <= j < old(self).entries@.len() && #[trigger] old(self).entries@[j].0@ == k;
                        assert(self.entries@[j].0@ == k);
                    }
                }
            },
            None => {
                self.entries.push((name, version));
                self.mapping = Ghost(m);
                assert forall|k: Seq<char>|
                    self.mapping@.contains_key(k) <==> exists|j: int|
                        0 <= j < self.entries@.len() && #[trigger] self.entries@[j].0@ == k by {
                    if k == n {
                        assert(self.entries@[self.entries@.len() - 1].0@ == k);
                    } else if old(self).mapping@.contains_key(k) {
                        let j = choose|j: int|
                            0 <= j < old(self).entries@.len() && #[trigger] old(self).entries@[j].0@ == k;
                        assert(self.entries@[j].0@ == k);
                    }
                }
            },
        }
    }

    /// Takes `name` out of the map, and hands back the version it was mapped to.
    pub fn remove(&mut self, name: &String) -> (r: Option<String>)
        requires
            old(self).wf(),
        ensures
            final(self).wf(),
            final(self)@ == old(self)@.remove(name@),
            match r {
                Some(v) => old(self)@.contains_key(name@) && v@ == old(self)@[name@],
                None => !old(self)@.contains_key(name@),
            },
    {
        match self.position(name) {
            Some(i) => {
                let ghost n = name@;
                let entry = self.entries.remove(i);
                self.mapping = Ghost(self.mapping@.remove(n));
                assert forall|k: Seq<char>|
                    self.mapping@.contains_key(k) <==> exists|j: int|
                        0 <= j < self.entries@.len() && #[trigger] self.entries@[j].0@ == k by {
                    if self.mapping@.contains_key(k) {
                        let j = choose|j: int|
                            0 <= j < old(self).entries@.len() && #[trigger] old(self).entries@[j].0@ == k;
                        if j < i {
                            assert(self.entries@[j].0@ == k);
                        } else {
                            assert(j != i);
                            assert(self.entries@[j - 1].0@ == k);
                        }
                    }
                    if exists|j: int| 0 <= j < self.entries@.len() && #[trigger] self.entries@[j].0@ == k {
                        let j = choose|j: int|
                            0 <= j < self.entries@.len() && #[trigger] self.entries@[j].0@ == k;
                        if j < i {
                            assert(old(self).entries@[j].0@ == k);
                        } else {
                            assert(old(self).entries@[j + 1].0@ == k);
                        }
                    }
                }
                assert forall|j: int|
                    0 <= j < self.entries@.len() implies self.mapping@[#[trigger] self.entries@[j].0@]
                        == self.entries@[j].1@ by {
                    if j < i {
                        assert(self.entries@[j] == old(self).entries@[j]);
                    } else {
                        assert(self.entries@[j] == old(self).entries@[j + 1]);
                    }
                }
                Some(entry.1)
            },
            None => {
                assert(self.mapping@.remove(name@) =~= self.mapping@);
                None
            },
        }
    }

    /// The entries, each name once, in no particular order.
    pub fn to_vec(&self) -> (r: Vec<(String, String)>)
        requires
            self.wf(),
        ensures
            forall|i: int, j: int| 0 <= i < j < r@.len() ==> r@[i].0@ != r@[j].0@,
            forall|n: Seq<char>|
                self@.contains_key(n) <==> exists|i: int| 0 <= i < r@.len() && #[trigger] r@[i].0@ == n,
            forall|i: int| 0 <= i < r@.len() ==> self@[#[trigger] r@[i].0@] == r@[i].1@,
    {
        let mut r: Vec<(String, String)> = Vec::new();
        let mut i: usize = 0;
        while i < self.entries.len()
            invariant
                self.wf(),
                i <= self.entries@.len(),
                r@.len() == i,
                forall|j: int| 0 <= j < i ==> r@[j].0@ == self.entries@[j].0@ && r@[j].1@ == self.entries@[j].1@,
            decreases self.entries@.len() - i,
        {
            let name = self.entries[i].0.clone();
            let version = self.entries[i].1.clone();
            r.push((name, version));
            i = i + 1;
        }
        assert forall|n: Seq<char>|
            self@.contains_key(n) <==> exists|i: int| 0 <= i < r@.len() && #[trigger] r@[i].0@ == n by {
            if self@.contains_key(n) {
                let j = choose|j: int| 0 <= j < self.entries@.len() && #[trigger] self.entries@[j].0@ == n;
                assert(r@[j].0@ == n);
            }
            if exists|i: int| 0 <= i < r@.len() && #[trigger] r@[i].0@ == n {
                let j = choose|j: int| 0 <= j < r@.len() && #[trigger] r@[j].0@ == n;
                assert(self.entries@[j].0@ == n);
            }
        }
        r
    }
}

} // verus!
