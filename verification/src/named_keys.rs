//! The named-key namespace: the directory through which a context finds its keys.
//!
//! A namespace is a finite mapping from names to keys. It is held as a list
//! of entries in the order of their names, so that the namespace decides the
//! order in which it is enumerated, whatever history produced it.

use vstd::prelude::*;

use crate::bytesrepr::{Error, FromBytes, ToBytes};
use crate::cl_type::{CLType, CLTyped};
use crate::key::{collect_urefs, lemma_urefs_among, urefs_among, Key};
use crate::name_order::{
    compare_names, lemma_name_lt_irreflexive, lemma_name_lt_transitive, name_lt, Place,
};
use crate::uref::URef;

verus! {

/// Whether the entries stand in the order of their names, each name once.
pub open spec fn sorted(es: Seq<(Seq<char>, Key)>) -> bool {
    forall|i: int, j: int| 0 <= i < j < es.len() ==> name_lt(#[trigger] es[i].0, #[trigger] es[j].0)
}

/// Whether some entry has the name `n`.
pub open spec fn has_name(es: Seq<(Seq<char>, Key)>, n: Seq<char>) -> bool {
    exists|i: int| 0 <= i < es.len() && (#[trigger] es[i]).0 == n
}

/// The place of an entry with the name `n`.
pub open spec fn index_of(es: Seq<(Seq<char>, Key)>, n: Seq<char>) -> int {
    choose|i: int| 0 <= i < es.len() && (#[trigger] es[i]).0 == n
}

/// The mapping that a list of entries stands for.
pub open spec fn to_map(es: Seq<(Seq<char>, Key)>) -> Map<Seq<char>, Key> {
    Map::new(|n: Seq<char>| has_name(es, n), |n: Seq<char>| es[index_of(es, n)].1)
}

/// The entries of a mapping in the order of their names.
pub open spec fn entries_of(m: Map<Seq<char>, Key>) -> Seq<(Seq<char>, Key)> {
    choose|es: Seq<(Seq<char>, Key)>| sorted(es) && to_map(es) == m
}

/// In a sorted list each entry is found under its name.
pub proof fn lemma_to_map_at(es: Seq<(Seq<char>, Key)>, i: int)
    requires
        sorted(es),
        0 <= i < es.len(),
    ensures
        to_map(es).contains_key(es[i].0),
        to_map(es)[es[i].0] == es[i].1,
        index_of(es, es[i].0) == i,
{
    let n = es[i].0;
    assert(has_name(es, n));
    let j = index_of(es, n);
    lemma_name_lt_irreflexive(n);
    if j < i {
        assert(name_lt(es[j].0, es[i].0));
    } else if i < j {
        assert(name_lt(es[i].0, es[j].0));
    }
}

/// A name that lies strictly between the entries before `p` and those from
/// `p` on is not in the list.
pub proof fn lemma_to_map_absent(es: Seq<(Seq<char>, Key)>, name: Seq<char>, p: int)
    requires
        0 <= p <= es.len(),
        forall|i: int| 0 <= i < p ==> name_lt((#[trigger] es[i]).0, name),
        forall|i: int| p <= i < es.len() ==> name_lt(name, (#[trigger] es[i]).0),
    ensures
        !to_map(es).contains_key(name),
{
    lemma_name_lt_irreflexive(name);
}

/// Putting a new name at its place keeps the order and adds the entry to the mapping.
pub proof fn lemma_to_map_insert(es: Seq<(Seq<char>, Key)>, p: int, name: Seq<char>, key: Key)
    requires
        sorted(es),
        0 <= p <= es.len(),
        forall|i: int| 0 <= i < p ==> name_lt((#[trigger] es[i]).0, name),
        forall|i: int| p <= i < es.len() ==> name_lt(name, (#[trigger] es[i]).0),
    ensures
        sorted(es.insert(p, (name, key))),
        to_map(es.insert(p, (name, key))) == to_map(es).insert(name, key),
{
    let after = es.insert(p, (name, key));
    assert forall|i: int, j: int| 0 <= i < j < after.len() implies name_lt(
        #[trigger] after[i].0,
        #[trigger] after[j].0,
    ) by {
        if i < p && j > p {
            assert(after[i] == es[i] && after[j] == es[j - 1]);
        } else if i < p && j < p {
            assert(after[i] == es[i] && after[j] == es[j]);
        } else if i > p {
            assert(after[i] == es[i - 1] && after[j] == es[j - 1]);
        } else if i == p {
            assert(after[j] == es[j - 1]);
        } else {
            assert(after[i] == es[i]);
        }
    }
    assert forall|n: Seq<char>| to_map(after).contains_key(n) == to_map(es).insert(
        name,
        key,
    ).contains_key(n) by {
        if has_name(after, n) {
            let i = index_of(after, n);
            if i < p {
                assert(es[i].0 == n);
            } else if i > p {
                assert(es[i - 1].0 == n);
            }
        }
        if has_name(es, n) {
            let i = index_of(es, n);
            if i < p {
                assert(after[i].0 == n);
            } else {
                assert(after[i + 1].0 == n);
            }
        }
        if n == name {
            assert(after[p].0 == n);
        }
    }
    assert forall|n: Seq<char>| to_map(after).contains_key(n) implies to_map(after)[n] == to_map(
        es,
    ).insert(name, key)[n] by {
        let i = index_of(after, n);
        lemma_to_map_at(after, i);
        if i < p {
            assert(es[i] == after[i]);
            lemma_to_map_at(es, i);
            lemma_name_lt_irreflexive(name);
        } else if i > p {
            assert(es[i - 1] == after[i]);
            lemma_to_map_at(es, i - 1);
            lemma_name_lt_irreflexive(name);
        }
    }
    assert(to_map(after) =~= to_map(es).insert(name, key));
}

/// Giving the entry at `p` another key keeps the order and rebinds its name.
pub proof fn lemma_to_map_update(es: Seq<(Seq<char>, Key)>, p: int, key: Key)
    requires
        sorted(es),
        0 <= p < es.len(),
    ensures
        sorted(es.update(p, (es[p].0, key))),
        to_map(es.update(p, (es[p].0, key))) == to_map(es).insert(es[p].0, key),
{
    let name = es[p].0;
    let after = es.update(p, (name, key));
    assert forall|i: int, j: int| 0 <= i < j < after.len() implies name_lt(
        #[trigger] after[i].0,
        #[trigger] after[j].0,
    ) by {
        assert(after[i].0 == es[i].0 && after[j].0 == es[j].0);
    }
    assert forall|n: Seq<char>| to_map(after).contains_key(n) == to_map(es).insert(
        name,
        key,
    ).contains_key(n) by {
        if has_name(after, n) {
            let i = index_of(after, n);
            assert(es[i].0 == n);
        }
        if has_name(es, n) {
            let i = index_of(es, n);
            assert(after[i].0 == n);
        }
    }
    assert forall|n: Seq<char>| to_map(after).contains_key(n) implies to_map(after)[n] == to_map(
        es,
    ).insert(name, key)[n] by {
        let i = index_of(after, n);
        lemma_to_map_at(after, i);
        assert(es[i].0 == n);
        lemma_to_map_at(es, i);
        lemma_to_map_at(es, p);
    }
    assert(to_map(after) =~= to_map(es).insert(name, key));
}

/// Taking the entry at `p` out keeps the order and unbinds its name.
pub proof fn lemma_to_map_remove(es: Seq<(Seq<char>, Key)>, p: int)
    requires
        sorted(es),
        0 <= p < es.len(),
    ensures
        sorted(es.remove(p)),
        to_map(es.remove(p)) == to_map(es).remove(es[p].0),
{
    let name = es[p].0;
    let after = es.remove(p);
    assert forall|i: int, j: int| 0 <= i < j < after.len() implies name_lt(
        #[trigger] after[i].0,
        #[trigger] after[j].0,
    ) by {
        let a = if i < p {
            i
        } else {
            i + 1
        };
        let b = if j < p {
            j
        } else {
            j + 1
        };
        assert(after[i] == es[a] && after[j] == es[b]);
    }
    assert forall|n: Seq<char>| to_map(after).contains_key(n) == to_map(es).remove(
        name,
    ).contains_key(n) by {
        if has_name(after, n) {
            let i = index_of(after, n);
            let a = if i < p {
                i
            } else {
                i + 1
            };
            assert(es[a].0 == n);
            lemma_to_map_at(es, a);
            lemma_to_map_at(es, p);
        }
        if has_name(es, n) && n != name {
            let i = index_of(es, n);
            if i < p {
                assert(after[i].0 == n);
            } else {
                assert(after[i - 1].0 == n);
            }
        }
    }
    assert forall|n: Seq<char>| to_map(after).contains_key(n) implies to_map(after)[n] == to_map(
        es,
    ).remove(name)[n] by {
        let i = index_of(after, n);
        lemma_to_map_at(after, i);
        let a = if i < p {
            i
        } else {
            i + 1
        };
        assert(es[a] == after[i]);
        lemma_to_map_at(es, a);
    }
    assert(to_map(after) =~= to_map(es).remove(name));
}

/// A mapping has one sorted list of entries.
pub proof fn lemma_entries_unique(a: Seq<(Seq<char>, Key)>, b: Seq<(Seq<char>, Key)>)
    requires
        sorted(a),
        sorted(b),
        to_map(a) == to_map(b),
    ensures
        a == b,
    decreases a.len(),
{
    if a.len() == 0 {
        if b.len() > 0 {
            lemma_to_map_at(b, 0);
            assert(has_name(a, b[0].0));
        }
        assert(a =~= b);
    } else {
        lemma_to_map_at(a, 0);
        assert(has_name(b, a[0].0));
        let j = index_of(b, a[0].0);
        lemma_to_map_at(b, j);
        lemma_to_map_at(b, 0);
        assert(has_name(a, b[0].0));
        let i = index_of(a, b[0].0);
        if j > 0 {
            assert(name_lt(b[0].0, b[j].0));
            if i > 0 {
                assert(name_lt(a[0].0, a[i].0));
                lemma_name_lt_transitive(b[0].0, a[0].0, a[i].0);
            }
            lemma_name_lt_irreflexive(b[0].0);
        }
        assert(a[0] == b[0]);
        lemma_to_map_remove(a, 0);
        lemma_to_map_remove(b, 0);
        lemma_entries_unique(a.remove(0), b.remove(0));
        assert(a =~= seq![a[0]] + a.remove(0));
        assert(b =~= seq![b[0]] + b.remove(0));
    }
}

/// The entries of the mapping that a sorted list stands for are that list.
pub proof fn lemma_entries_of_to_map(es: Seq<(Seq<char>, Key)>)
    requires
        sorted(es),
    ensures
        entries_of(to_map(es)) == es,
{
    let found = entries_of(to_map(es));
    assert(sorted(found) && to_map(found) == to_map(es));
    lemma_entries_unique(found, es);
}

/// A namespace: a finite mapping from names to keys.
#[derive(Debug, PartialEq, Eq)]
pub struct NamedKeys {
    entries: Vec<(String, Key)>,
}

impl View for NamedKeys {
    type V = Map<Seq<char>, Key>;

    open spec fn view(&self) -> Map<Seq<char>, Key> {
        to_map(self.deep_view())
    }
}

impl DeepView for NamedKeys {
    type V = Seq<(Seq<char>, Key)>;

    closed spec fn deep_view(&self) -> Seq<(Seq<char>, Key)> {
        self.entries.deep_view()
    }
}

impl NamedKeys {
    #[verifier::type_invariant]
    spec fn ordered(self) -> bool {
        sorted(self.entries.deep_view())
    }

    /// The entries in the order in which they are enumerated.
    pub open spec fn entries(&self) -> Seq<(Seq<char>, Key)> {
        self.deep_view()
    }

    /// The empty namespace.
    pub fn new() -> (r: NamedKeys)
        ensures
            r@ == Map::<Seq<char>, Key>::empty(),
            r.entries() == Seq::<(Seq<char>, Key)>::empty(),
    {
        let r = NamedKeys { entries: Vec::new() };
        proof {
            assert(r.entries.deep_view() =~= Seq::<(Seq<char>, Key)>::empty());
            assert(r@ =~= Map::<Seq<char>, Key>::empty());
        }
        r
    }

    /// The number of names. The entries are the entries of the mapping, in
    /// the order of their names.
    pub fn len(&self) -> (r: usize)
        ensures
            r == self.entries().len(),
            self.entries() == entries_of(self@),
            sorted(self.entries()),
            to_map(self.entries()) == self@,
    {
        proof {
            use_type_invariant(self);
            lemma_entries_of_to_map(self.entries.deep_view());
        }
        self.entries.len()
    }

    /// Where `name` is, or where it would have to be put.
    fn find(&self, name: &str) -> (r: (usize, bool))
        ensures
            r.0 <= self.entries().len(),
            r.1 ==> r.0 < self.entries().len() && self.entries()[r.0 as int].0 == name@,
            !r.1 ==> (forall|i: int|
                0 <= i < r.0 ==> name_lt((#[trigger] self.entries()[i]).0, name@))
                && (forall|i: int|
                r.0 <= i < self.entries().len() ==> name_lt(
                    name@,
                    (#[trigger] self.entries()[i]).0,
                )),
    {
        let ghost es = self.entries.deep_view();
        proof {
            use_type_invariant(self);
        }
        let mut i: usize = 0;
        while i < self.entries.len()
            invariant
                i <= self.entries.len(),
                es == self.entries.deep_view(),
                sorted(es),
                forall|j: int| 0 <= j < i ==> name_lt((#[trigger] es[j]).0, name@),
            decreases self.entries.len() - i,
        {
            proof {
                assert(es[i as int] == self.entries@[i as int].deep_view());
            }
            match compare_names(self.entries[i].0.as_str(), name) {
                Place::Before => {},
                Place::Same => {
                    return (i, true);
                },
                Place::After => {
                    proof {
                        assert forall|j: int| i <= j < es.len() implies name_lt(
                            name@,
                            (#[trigger] es[j]).0,
                        ) by {
                            if j > i {
                                assert(name_lt(es[i as int].0, es[j].0));
                                lemma_name_lt_transitive(name@, es[i as int].0, es[j].0);
                            }
                        }
                    }
                    return (i, false);
                },
            }
            i = i + 1;
        }
        (i, false)
    }

    /// The key bound to `name`, if there is one.
    pub fn get(&self, name: &str) -> (r: Option<Key>)
        ensures
            r == (if self@.contains_key(name@) {
                Some(self@[name@])
            } else {
                None
            }),
    {
        proof {
            use_type_invariant(self);
        }
        let (p, found) = self.find(name);
        if found {
            proof {
                lemma_to_map_at(self.entries.deep_view(), p as int);
                assert(self.entries.deep_view()[p as int] == self.entries@[p as int].deep_view());
            }
            Some(self.entries[p].1)
        } else {
            proof {
                lemma_to_map_absent(self.entries.deep_view(), name@, p as int);
            }
            None
        }
    }

    /// Whether `name` is bound.
    pub fn contains(&self, name: &str) -> (r: bool)
        ensures
            r == self@.contains_key(name@),
    {
        proof {
            use_type_invariant(self);
        }
        let (p, found) = self.find(name);
        proof {
            if found {
                lemma_to_map_at(self.entries.deep_view(), p as int);
            } else {
                lemma_to_map_absent(self.entries.deep_view(), name@, p as int);
            }
        }
        found
    }

    /// Binds `name` to `key`, in place of what it was bound to before.
    pub fn insert(&mut self, name: String, key: Key)
        ensures
            final(self)@ == old(self)@.insert(name@, key),
    {
        proof {
            use_type_invariant(&*self);
        }
        let ghost es = self.entries.deep_view();
        let (p, found) = self.find(name.as_str());
        if found {
            proof {
                lemma_to_map_update(es, p as int, key);
            }
            let mut entries: Vec<(String, Key)> = Vec::new();
            core::mem::swap(&mut self.entries, &mut entries);
            entries[p] = (name, key);
            proof {
                assert(entries.deep_view() =~= es.update(p as int, (name@, key)));
            }
            self.entries = entries;
        } else {
            proof {
                lemma_to_map_insert(es, p as int, name@, key);
            }
            let mut entries: Vec<(String, Key)> = Vec::new();
            core::mem::swap(&mut self.entries, &mut entries);
            entries.insert(p, (name, key));
            proof {
                assert(entries.deep_view() =~= es.insert(p as int, (name@, key)));
            }
            self.entries = entries;
        }
    }

    /// Unbinds `name`, if it is bound.
    pub fn remove(&mut self, name: &str)
        ensures
            final(self)@ == old(self)@.remove(name@),
    {
        proof {
            use_type_invariant(&*self);
        }
        let ghost es = self.entries.deep_view();
        let (p, found) = self.find(name);
        if found {
            proof {
                lemma_to_map_remove(es, p as int);
            }
            let mut entries: Vec<(String, Key)> = Vec::new();
            core::mem::swap(&mut self.entries, &mut entries);
            entries.remove(p);
            proof {
                assert(entries.deep_view() =~= es.remove(p as int));
            }
            self.entries = entries;
        } else {
            proof {
                lemma_to_map_absent(es, name@, p as int);
                assert(self@ =~= self@.remove(name@));
            }
        }
    }

    /// The name of the entry at `i` in the enumeration.
    pub fn name_at(&self, i: usize) -> (r: &String)
        requires
            i < self.entries().len(),
        ensures
            r@ == self.entries()[i as int].0,
    {
        proof {
            assert(self.entries.deep_view()[i as int] == self.entries@[i as int].deep_view());
        }
        &self.entries[i].0
    }

    /// The key of the entry at `i` in the enumeration.
    pub fn key_at(&self, i: usize) -> (r: Key)
        requires
            i < self.entries().len(),
        ensures
            r == self.entries()[i as int].1,
    {
        proof {
            assert(self.entries.deep_view()[i as int] == self.entries@[i as int].deep_view());
        }
        self.entries[i].1
    }

    /// A copy of this namespace.
    pub fn duplicate(&self) -> (r: NamedKeys)
        ensures
            r@ == self@,
            r.entries() == self.entries(),
    {
        proof {
            use_type_invariant(self);
        }
        let mut entries: Vec<(String, Key)> = Vec::new();
        let mut i: usize = 0;
        while i < self.entries.len()
            invariant
                i <= self.entries.len(),
                entries.deep_view() == self.entries.deep_view().take(i as int),
            decreases self.entries.len() - i,
        {
            let ghost before = entries.deep_view();
            entries.push((self.entries[i].0.clone(), self.entries[i].1));
            proof {
                assert(entries.deep_view() =~= before.push(self.entries@[i as int].deep_view()));
                assert(self.entries.deep_view().take(i + 1) =~= self.entries.deep_view().take(
                    i as int,
                ).push(self.entries@[i as int].deep_view()));
            }
            i = i + 1;
        }
        proof {
            assert(self.entries.deep_view().take(i as int) =~= self.entries.deep_view());
        }
        NamedKeys { entries }
    }

    /// The capability references among the keys, in the order of their names.
    pub fn urefs(&self) -> (r: Vec<URef>)
        ensures
            r@ == urefs_among(keys_of(self.entries())),
            forall|u: URef| r@.contains(u) <==> held_in(self@, u),
    {
        proof {
            use_type_invariant(self);
        }
        let ghost es = self.entries.deep_view();
        let mut keys: Vec<Key> = Vec::new();
        let mut i: usize = 0;
        while i < self.entries.len()
            invariant
                i <= self.entries.len(),
                es == self.entries.deep_view(),
                keys@ == keys_of(es).take(i as int),
            decreases self.entries.len() - i,
        {
            proof {
                assert(es[i as int] == self.entries@[i as int].deep_view());
                assert(keys_of(es).take(i + 1) =~= keys_of(es).take(i as int).push(es[i as int].1));
            }
            keys.push(self.entries[i].1);
            i = i + 1;
        }
        proof {
            assert(keys_of(es).take(i as int) =~= keys_of(es));
            assert forall|u: URef| urefs_among(keys_of(es)).contains(u) <==> held_in(self@, u) by {
                lemma_urefs_among(keys_of(es), u);
                if keys_of(es).contains(Key::URef(u)) {
                    let j = choose|j: int| 0 <= j < es.len() && keys_of(es)[j] == Key::URef(u);
                    lemma_to_map_at(es, j);
                }
                if held_in(self@, u) {
                    let n = choose|n: Seq<char>| self@.contains_key(n) && self@[n] == Key::URef(u);
                    let j = index_of(es, n);
                    lemma_to_map_at(es, j);
                    assert(keys_of(es)[j] == Key::URef(u));
                }
            }
        }
        collect_urefs(&keys)
    }
}

/// The keys of a list of entries, in their order.
pub open spec fn keys_of(es: Seq<(Seq<char>, Key)>) -> Seq<Key> {
    Seq::new(es.len(), |i: int| es[i].1)
}

/// Whether the reference `u` is bound to some name of the namespace `m`.
pub open spec fn held_in(m: Map<Seq<char>, Key>, u: URef) -> bool {
    exists|n: Seq<char>| m.contains_key(n) && #[trigger] m[n] == Key::URef(u)
}


/// Whether the entries of a list stand in the order of their names, each name once.
pub fn is_sorted(entries: &Vec<(String, Key)>) -> (r: bool)
    ensures
        r == sorted(entries.deep_view()),
{
    let ghost es = entries.deep_view();
    let mut i: usize = 1;
    while i < entries.len()
        invariant
            1 <= i,
            es == entries.deep_view(),
            es.len() == entries.len(),
            forall|a: int, b: int|
                0 <= a < b < i ==> name_lt(#[trigger] es[a].0, #[trigger] es[b].0),
        decreases entries.len() - i,
    {
        proof {
            assert(es[i as int] == entries@[i as int].deep_view());
            assert(es[i - 1] == entries@[i - 1].deep_view());
        }
        match compare_names(entries[i - 1].0.as_str(), entries[i].0.as_str()) {
            Place::Before => {
                proof {
                    assert forall|a: int, b: int| 0 <= a < b < i + 1 implies name_lt(
                        #[trigger] es[a].0,
                        #[trigger] es[b].0,
                    ) by {
                        if b == i && a < i - 1 {
                            assert(name_lt(es[a].0, es[i - 1].0));
                            lemma_name_lt_transitive(es[a].0, es[i - 1].0, es[i as int].0);
                        }
                    }
                }
            },
            _ => {
                proof {
                    assert(!name_lt(es[i - 1].0, es[i as int].0));
                }
                return false;
            },
        }
        i = i + 1;
    }
    true
}

impl ToBytes for NamedKeys {
    open spec fn wire(v: Seq<(Seq<char>, Key)>) -> Seq<u8> {
        Vec::<(String, Key)>::wire(v)
    }

    open spec fn fits(v: Seq<(Seq<char>, Key)>) -> bool {
        sorted(v) && Vec::<(String, Key)>::fits(v)
    }

    fn write_bytes(&self, out: &mut Vec<u8>) -> (ok: bool) {
        proof {
            use_type_invariant(self);
        }
        self.entries.write_bytes(out)
    }
}

impl FromBytes for NamedKeys {
    open spec fn parse(bytes: Seq<u8>) -> Result<(Seq<(Seq<char>, Key)>, int), Error> {
        match Vec::<(String, Key)>::parse(bytes) {
            Ok((es, n)) => if sorted(es) {
                Ok((es, n))
            } else {
                Err(Error::FormattingError)
            },
            Err(e) => Err(e),
        }
    }

    fn from_bytes(bytes: &[u8]) -> (r: Result<(NamedKeys, &[u8]), Error>) {
        match Vec::<(String, Key)>::from_bytes(bytes) {
            Ok((entries, rest)) => {
                if is_sorted(&entries) {
                    Ok((NamedKeys { entries }, rest))
                } else {
                    Err(Error::FormattingError)
                }
            },
            Err(e) => Err(e),
        }
    }

    proof fn lemma_parse_wire(x: NamedKeys, rest: Seq<u8>) {
        Vec::<(String, Key)>::lemma_parse_wire(x.entries, rest);
    }
}

impl CLTyped for NamedKeys {
    open spec fn spec_cl_type() -> CLType {
        CLType::Mapping { key: Box::new(CLType::String), value: Box::new(CLType::Key) }
    }

    fn cl_type() -> (t: CLType) {
        CLType::Mapping { key: Box::new(CLType::String), value: Box::new(CLType::Key) }
    }
}

} // verus!
