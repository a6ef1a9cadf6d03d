//! An environment: variables by name, in the order in which their names first came.

use vstd::prelude::*;

verus! {

/// The contents of an environment: names and values.
pub type Entries = Seq<(Seq<char>, Seq<char>)>;

/// Where the entry of `name` is.
pub open spec fn find(s: Entries, name: Seq<char>) -> Option<int>
    decreases s.len(),
{
    if s.len() == 0 {
        None
    } else if s.last().0 == name {
        Some(s.len() - 1)
    } else {
        find(s.drop_last(), name)
    }
}

/// `s` with `name` set to `value`: in its old place if it has one, else at the end.
pub open spec fn set_entry(s: Entries, name: Seq<char>, value: Seq<char>) -> Entries {
    match find(s, name) {
        Some(i) => s.update(i, (name, value)),
        None => s.push((name, value)),
    }
}

/// The entries as a map.
pub open spec fn to_map(s: Entries) -> Map<Seq<char>, Seq<char>>
    decreases s.len(),
{
    if s.len() == 0 {
        Map::empty()
    } else {
        to_map(s.drop_last()).insert(s.last().0, s.last().1)
    }
}

/// No name occurs twice.
pub open spec fn distinct(s: Entries) -> bool {
    forall|i: int, j: int| 0 <= i < j < s.len() ==> (#[trigger] s[i]).0 != (#[trigger] s[j]).0
}

/// A name is found where its last entry is, or nowhere if it has none.
pub proof fn lemma_find(s: Entries, name: Seq<char>)
    ensures
        match find(s, name) {
            Some(i) => 0 <= i < s.len() && s[i].0 == name && forall|j: int|
                i < j < s.len() ==> (#[trigger] s[j]).0 != name,
            None => forall|j: int| 0 <= j < s.len() ==> (#[trigger] s[j]).0 != name,
        },
    decreases s.len(),
{
    if s.len() > 0 && s.last().0 != name {
        lemma_find(s.drop_last(), name);
        match find(s.drop_last(), name) {
            Some(i) => {
                assert forall|j: int| i < j < s.len() implies (#[trigger] s[j]).0 != name by {
                    if j < s.len() - 1 {
                        assert(s.drop_last()[j] == s[j]);
                    }
                }
            },
            None => {
                assert forall|j: int| 0 <= j < s.len() implies (#[trigger] s[j]).0 != name by {
                    if j < s.len() - 1 {
                        assert(s.drop_last()[j] == s[j]);
                    }
                }
            },
        }
    }
}

/// The map gives each name the value where the name is found.
pub proof fn lemma_to_map(s: Entries, name: Seq<char>)
    ensures
        to_map(s).dom().contains(name) <==> find(s, name) is Some,
        find(s, name) matches Some(i) ==> to_map(s)[name] == s[i].1,
    decreases s.len(),
{
    if s.len() > 0 {
        lemma_to_map(s.drop_last(), name);
        lemma_find(s.drop_last(), name);
    }
}

/// Setting a name sets it in the map, and keeps names distinct.
pub proof fn lemma_set_entry(s: Entries, name: Seq<char>, value: Seq<char>)
    ensures
        to_map(set_entry(s, name, value)) == to_map(s).insert(name, value),
        distinct(s) ==> distinct(set_entry(s, name, value)),
{
    let t = set_entry(s, name, value);
    lemma_find(s, name);
    let m = to_map(s).insert(name, value);
    assert forall|n: Seq<char>|
        #![trigger to_map(t).dom().contains(n)]
        #![trigger m.dom().contains(n)]
        {
            &&& to_map(t).dom().contains(n) == m.dom().contains(n)
            &&& to_map(t).dom().contains(n) ==> to_map(t)[n] == m[n]
        } by {
        lemma_to_map(s, n);
        lemma_to_map(t, n);
        lemma_find(s, n);
        lemma_find(t, n);
        if find(t, n) is Some {
            let j = find(t, n)->0;
            assert(t[j].0 == n);
            if j < s.len() {
                assert(s[j].0 == n);
            }
        }
        if find(s, n) is Some {
            let i = find(s, n)->0;
            assert(t[i].0 == n);
            if find(t, n) is Some && find(t, n)->0 < s.len() {
                assert(s[find(t, n)->0].0 == n);
            }
        }
        if n == name {
            match find(s, name) {
                Some(i) => {
                    assert(t[i].0 == name);
                },
                None => {
                    assert(t[s.len() as int].0 == name);
                },
            }
        }
    }
    assert(to_map(t) =~= m);
    if distinct(s) {
        assert forall|i: int, j: int| 0 <= i < j < t.len() implies (#[trigger] t[i]).0 != (
        #[trigger] t[j]).0 by {
            if j < s.len() {
                assert(t[i].0 == s[i].0 && t[j].0 == s[j].0);
            } else {
                assert(t[i].0 == s[i].0);
            }
        }
    }
}

/// The map has exactly the names that occur, each with the value of its last entry.
pub proof fn lemma_map_of_entries(s: Entries, i: int)
    ensures
        forall|name: Seq<char>| #[trigger]
            to_map(s).dom().contains(name) <==> exists|j: int|
                0 <= j < s.len() && (#[trigger] s[j]).0 == name,
        0 <= i < s.len() && (forall|j: int| i < j < s.len() ==> (#[trigger] s[j]).0 != s[i].0)
            ==> to_map(s)[s[i].0] == s[i].1,
{
    assert forall|name: Seq<char>| #[trigger]
        to_map(s).dom().contains(name) <==> exists|j: int|
            0 <= j < s.len() && (#[trigger] s[j]).0 == name by {
        lemma_to_map(s, name);
        lemma_find(s, name);
    }
    if 0 <= i < s.len() {
        lemma_to_map(s, s[i].0);
        lemma_find(s, s[i].0);
    }
}

/// Setting a name keeps the other entries in their places.
pub proof fn lemma_set_entry_keeps(s: Entries, name: Seq<char>, value: Seq<char>, i: int)
    requires
        0 <= i < s.len(),
        s[i].0 != name,
    ensures
        set_entry(s, name, value).len() >= s.len(),
        set_entry(s, name, value).len() <= s.len() + 1,
        set_entry(s, name, value)[i] == s[i],
{
    lemma_find(s, name);
}

/// A set of environment variables.
#[derive(Debug)]
pub struct Env {
    entries: Vec<(String, String)>,
}

impl View for Env {
    type V = Entries;

    closed spec fn view(&self) -> Entries {
        self.entries@.map_values(|e: (String, String)| (e.0@, e.1@))
    }
}

impl Default for Env {
    fn default() -> (r: Env)
        ensures
            r@ == Entries::empty(),
    {
        Env::new()
    }
}

impl Clone for Env {
    fn clone(&self) -> (r: Env)
        ensures
            r@ == self@,
    {
        proof {
            use_type_invariant(self);
        }
        let mut entries: Vec<(String, String)> = Vec::new();
        let mut i: usize = 0;
        while i < self.entries.len()
            invariant
                i <= self.entries@.len(),
                entries@.map_values(|e: (String, String)| (e.0@, e.1@)) == self@.take(i as int),
            decreases self.entries@.len() - i,
        {
            let ghost front = entries@.map_values(|e: (String, String)| (e.0@, e.1@));
            let (name, value) = self.entry(i);
            entries.push((name.clone(), value.clone()));
            assert(entries@.map_values(|e: (String, String)| (e.0@, e.1@)) =~= front.push(
                self@[i as int],
            ));
            assert(self@.take(i + 1) =~= self@.take(i as int).push(self@[i as int]));
            i = i + 1;
        }
        assert(self@.take(i as int) =~= self@);
        Env { entries }
    }
}

impl Env {
    /// No name occurs twice.
    #[verifier::type_invariant]
    pub open spec fn wf(&self) -> bool {
        distinct(self@)
    }

    /// The variables by name.
    pub open spec fn map(&self) -> Map<Seq<char>, Seq<char>> {
        to_map(self@)
    }

    /// An environment without variables.
    pub fn new() -> (r: Env)
        ensures
            r@ == Entries::empty(),
            r.wf(),
    {
        let r = Env { entries: Vec::new() };
        assert(r@ =~= Entries::empty());
        r
    }

    /// How many variables there are.
    pub fn len(&self) -> (r: usize)
        ensures
            r == self@.len(),
    {
        self.entries.len()
    }

    /// The name and the value of the variable at `i`.
    pub fn entry(&self, i: usize) -> (r: (&String, &String))
        requires
            i < self@.len(),
        ensures
            (r.0@, r.1@) == self@[i as int],
    {
        let e = &self.entries[i];
        (&e.0, &e.1)
    }

    /// Where the variable `name` is.
    fn index_of(&self, name: &String) -> (r: Option<usize>)
        ensures
            match r {
                Some(i) => find(self@, name@) == Some(i as int),
                None => find(self@, name@) is None,
            },
    {
        let mut i: usize = self.entries.len();
        assert(self@.take(i as int) =~= self@);
        while i > 0
            invariant
                i <= self@.len(),
                self@.len() == self.entries@.len(),
                find(self@, name@) == find(self@.take(i as int), name@),
            decreases i,
        {
            let ghost front = self@.take(i as int);
            let e = self.entry(i - 1);
            assert(front.last() == self@[i - 1]);
            assert(front.drop_last() =~= self@.take(i - 1));
            if *e.0 == *name {
                return Some(i - 1);
            }
            i = i - 1;
        }
        None
    }

    /// The value of the variable `name`.
    pub fn get(&self, name: &String) -> (r: Option<&String>)
        ensures
            match r {
                Some(v) => self.map().dom().contains(name@) && self.map()[name@] == v@,
                None => !self.map().dom().contains(name@),
            },
    {
        proof {
            lemma_to_map(self@, name@);
            lemma_find(self@, name@);
        }
        match self.index_of(name) {
            Some(i) => Some(self.entry(i).1),
            None => None,
        }
    }

    /// Sets the variable `name`.
    pub fn insert(&mut self, name: String, value: String)
        ensures
            final(self)@ == set_entry(old(self)@, name@, value@),
            final(self).map() == old(self).map().insert(name@, value@),
            final(self).wf(),
    {
        proof {
            use_type_invariant(&*self);
            lemma_find(self@, name@);
            lemma_set_entry(self@, name@, value@);
        }
        let ghost before = self@;
        let ghost n = name@;
        let ghost v = value@;
        let place = self.index_of(&name);
        let mut entries: Vec<(String, String)> = Vec::new();
        std::mem::swap(&mut entries, &mut self.entries);
        match place {
            Some(i) => {
                entries.set(i, (name, value));
            },
            None => {
                entries.push((name, value));
            },
        }
        assert(entries@.map_values(|e: (String, String)| (e.0@, e.1@)) =~= set_entry(before, n, v));
        self.entries = entries;
    }

    /// Whether every variable of `self` is in `other` with the same value.
    fn is_within(&self, other: &Env) -> (r: bool)
        ensures
            r <==> (forall|n: Seq<char>| #[trigger]
                self.map().dom().contains(n) ==> other.map().dom().contains(n) && other.map()[n]
                    == self.map()[n]),
    {
        let mut i: usize = 0;
        while i < self.len()
            invariant
                i <= self@.len(),
                forall|j: int|
                    0 <= j < i ==> {
                        let n = (#[trigger] self@[j]).0;
                        &&& other.map().dom().contains(n)
                        &&& other.map()[n] == self.map()[n]
                    },
            decreases self@.len() - i,
        {
            let name = self.entry(i).0;
            proof {
                assert(self@[i as int].0 == name@);
                lemma_to_map(self@, name@);
                lemma_find(self@, name@);
            }
            let same = match (self.get(name), other.get(name)) {
                (Some(a), Some(b)) => *a == *b,
                _ => false,
            };
            if !same {
                assert(self.map().dom().contains(name@));
                assert(!(other.map().dom().contains(name@) && other.map()[name@]
                    == self.map()[name@]));
                return false;
            }
            i = i + 1;
        }
        assert forall|n: Seq<char>| #[trigger]
            self.map().dom().contains(n) implies other.map().dom().contains(n) && other.map()[n]
            == self.map()[n] by {
            lemma_to_map(self@, n);
            lemma_find(self@, n);
            let j = find(self@, n)->0;
            assert(self@[j].0 == n);
        }
        true
    }
}

/// Environments are equal where they give the same names the same values, in whatever order.
impl PartialEq for Env {
    fn eq(&self, other: &Env) -> (r: bool) {
        let r = self.is_within(other) && other.is_within(self);
        proof {
            if r {
                assert(self.map() =~= other.map());
            }
        }
        r
    }
}

/// Environments are equal exactly where they have the same names, each with the same value.
pub proof fn lemma_env_equal(a: Env, b: Env)
    ensures
        vstd::std_specs::cmp::PartialEqSpec::eq_spec(&a, &b) <==> forall|name: Seq<char>|
            {
                &&& #[trigger] a.map().dom().contains(name) == b.map().dom().contains(name)
                &&& a.map().dom().contains(name) ==> a.map()[name] == b.map()[name]
            },
        a.map() == to_map(a@),
{
    if forall|name: Seq<char>|
        {
            &&& #[trigger] a.map().dom().contains(name) == b.map().dom().contains(name)
            &&& a.map().dom().contains(name) ==> a.map()[name] == b.map()[name]
        } {
        assert(a.map() =~= b.map());
    }
}

impl vstd::std_specs::cmp::PartialEqSpecImpl for Env {
    open spec fn obeys_eq_spec() -> bool {
        true
    }

    open spec fn eq_spec(&self, other: &Env) -> bool {
        self.map() == other.map()
    }
}

} // verus!
