//! A table of values by name.
//!
//! The names are kept in a concurrent map that leads to the places of the
//! values; the map decides in which order the names are listed.

use dashmap::DashMap;
use vstd::prelude::*;

use crate::text;

verus! {

/// The concurrent map of the `dashmap` crate.
#[verifier::external_type_specification]
#[verifier::external_body]
#[verifier::reject_recursive_types(K)]
#[verifier::reject_recursive_types(V)]
#[verifier::reject_recursive_types(S)]
pub struct ExDashMap<K, V, S>(DashMap<K, V, S>);

/// What a map from names to places holds.
pub uninterp spec fn places(m: DashMap<String, usize>) -> Map<Seq<char>, usize>;

/// `DashMap::new` makes a map that holds nothing.
#[verifier::external_body]
fn no_places() -> (r: DashMap<String, usize>)
    ensures
        forall|k: Seq<char>| !places(r).dom().contains(k),
{
    DashMap::new()
}

/// `DashMap::get` finds what the map holds for a key; the place is read out of
/// the reference that it returns.
#[verifier::external_body]
fn place_of(m: &DashMap<String, usize>, name: &str) -> (r: Option<usize>)
    ensures
        r is Some <==> places(*m).dom().contains(name@),
        r is Some ==> r == Some(places(*m)[name@]),
{
    m.get(name).map(|p| *p)
}

/// `DashMap::insert` maps a key to a value, whether or not the key was there,
/// and leaves the other keys as they are.
#[verifier::external_body]
fn set_place(m: &mut DashMap<String, usize>, name: String, place: usize)
    ensures
        places(*final(m)) == places(*old(m)).insert(name@, place),
{
    m.insert(name, place);
}

/// `DashMap::remove` takes a key out, if it is there, and leaves the other keys
/// as they are.
#[verifier::external_body]
fn drop_place(m: &mut DashMap<String, usize>, name: &str)
    ensures
        places(*final(m)) == places(*old(m)).remove(name@),
{
    m.remove(name);
}

/// `DashMap::iter` comes to every entry once. Nothing is said of the order in
/// which it does: it hangs on a hasher with a seed of its own.
#[verifier::external_body]
fn all_places(m: &DashMap<String, usize>) -> (r: Vec<(String, usize)>)
    ensures
        forall|i: int, j: int| 0 <= i < j < r@.len() ==> #[trigger] r@[i].0@ != #[trigger] r@[j].0@,
        forall|i: int| 0 <= i < r@.len() ==> places(*m).dom().contains(#[trigger] r@[i].0@),
        forall|k: Seq<char>| #[trigger] places(*m).dom().contains(k) ==> exists|i: int| 0 <= i < r@.len() && #[trigger] r@[i].0@ == k,
{
    m.iter().map(|e| (e.key().clone(), *e.value())).collect()
}

/// Values by name.
pub struct Table<V> {
    index: DashMap<String, usize>,
    slots: Vec<(String, V)>,
}

/// The names in `names` are those of `dom`, each once.
pub open spec fn lists_all(names: Seq<Seq<char>>, dom: Set<Seq<char>>) -> bool {
    &&& forall|i: int, j: int| 0 <= i < j < names.len() ==> #[trigger] names[i] != #[trigger] names[j]
    &&& forall|i: int| 0 <= i < names.len() ==> dom.contains(#[trigger] names[i])
    &&& forall|k: Seq<char>| #[trigger] dom.contains(k) ==> exists|i: int|
        0 <= i < names.len() && #[trigger] names[i] == k
}

impl<V> View for Table<V> {
    type V = Map<Seq<char>, V>;

    closed spec fn view(&self) -> Map<Seq<char>, V> {
        Map::new(
            |k: Seq<char>| places(self.index).dom().contains(k),
            |k: Seq<char>| self.slots@[places(self.index)[k] as int].1,
        )
    }
}

impl<V> Table<V> {
    /// The names lead to the places of their values, and no value is without a
    /// name.
    pub closed spec fn wf(&self) -> bool {
        let p = places(self.index);
        &&& forall|k: Seq<char>| #[trigger]
            p.dom().contains(k) ==> p[k] < self.slots@.len() && self.slots@[p[k] as int].0@ == k
        &&& forall|i: int|
            0 <= i < self.slots@.len() ==> p.dom().contains(#[trigger] self.slots@[i].0@)
                && p[self.slots@[i].0@] == i
    }

    /// An empty table.
    pub fn new() -> (r: Table<V>)
        ensures
            r.wf(),
            r@ == Map::<Seq<char>, V>::empty(),
    {
        let r = Table { index: no_places(), slots: Vec::new() };
        assert(r@ =~= Map::<Seq<char>, V>::empty());
        r
    }

    spec fn names(&self) -> Seq<Seq<char>> {
        Seq::new(self.slots@.len(), |i: int| self.slots@[i].0@)
    }

    proof fn lemma_size(&self)
        requires
            self.wf(),
        ensures
            self@.dom().finite(),
            self@.dom().len() == self.slots@.len(),
    {
        let names = self.names();
        assert forall|i: int, j: int| 0 <= i < names.len() && 0 <= j < names.len() && i
            != j implies names[i] != names[j] by {
            assert(places(self.index).dom().contains(self.slots@[i].0@));
            assert(places(self.index).dom().contains(self.slots@[j].0@));
        }
        names.unique_seq_to_set();
        vstd::seq_lib::seq_to_set_is_finite(names);
        assert forall|k: Seq<char>| self@.dom().contains(k) <==> #[trigger]
            names.to_set().contains(k) by {
            if self@.dom().contains(k) {
                assert(names[places(self.index)[k] as int] == k);
            }
            if names.to_set().contains(k) {
                let i = choose|i: int| 0 <= i < names.len() && names[i] == k;
                assert(places(self.index).dom().contains(self.slots@[i].0@));
            }
        }
        assert(self@.dom() =~= names.to_set());
    }

    /// How many names the table has.
    pub fn len(&self) -> (r: usize)
        requires
            self.wf(),
        ensures
            self@.dom().finite(),
            r == self@.dom().len(),
    {
        proof {
            self.lemma_size();
        }
        self.slots.len()
    }

    /// Whether the table has a name.
    pub fn contains(&self, name: &str) -> (r: bool)
        requires
            self.wf(),
        ensures
            r == self@.dom().contains(name@),
    {
        place_of(&self.index, name).is_some()
    }

    /// The value of a name.
    pub fn get(&self, name: &str) -> (r: Option<&V>)
        requires
            self.wf(),
        ensures
            match r {
                Some(v) => self@.dom().contains(name@) && self@[name@] == *v,
                None => !self@.dom().contains(name@),
            },
    {
        match place_of(&self.index, name) {
            Some(p) => Some(&self.slots[p].1),
            None => None,
        }
    }

    /// The value of a name, to be changed in its place.
    pub fn get_mut(&mut self, name: &str) -> (r: Option<&mut V>)
        requires
            old(self).wf(),
        ensures
            final(self).wf(),
            match r {
                Some(v) => old(self)@.dom().contains(name@) && *v == old(self)@[name@]
                    && final(self)@ == old(self)@.insert(name@, *final(v)),
                None => !old(self)@.dom().contains(name@) && final(self)@ == old(self)@,
            },
    {
        match place_of(&self.index, name) {
            Some(p) => Some(&mut self.slots[p].1),
            None => None,
        }
    }

    /// Gives a name a value.
    pub fn insert(&mut self, name: String, value: V)
        requires
            old(self).wf(),
        ensures
            final(self).wf(),
            final(self)@ == old(self)@.insert(name@, value),
    {
        let ghost before = *self;
        let ghost key = name@;
        match place_of(&self.index, name.as_str()) {
            Some(p) => {
                self.slots[p] = (name, value);
                assert(self@ =~= before@.insert(key, value));
            },
            None => {
                let p: usize = self.slots.len();
                let copy = name.clone();
                set_place(&mut self.index, copy, p);
                self.slots.push((name, value));
                assert forall|i: int| 0 <= i < self.slots@.len() implies places(
                    self.index,
                ).dom().contains(#[trigger] self.slots@[i].0@) && places(
                    self.index,
                )[self.slots@[i].0@] == i by {
                    if i < before.slots@.len() {
                        assert(places(before.index).dom().contains(before.slots@[i].0@));
                    }
                }
                assert(self@ =~= before@.insert(key, value));
            },
        }
    }

    /// Takes a name and its value out.
    pub fn remove(&mut self, name: &str) -> (r: Option<V>)
        requires
            old(self).wf(),
        ensures
            final(self).wf(),
            final(self)@ == old(self)@.remove(name@),
            match r {
                Some(v) => old(self)@.dom().contains(name@) && v == old(self)@[name@],
                None => !old(self)@.dom().contains(name@),
            },
    {
        let ghost before = *self;
        match place_of(&self.index, name) {
            Some(p) => {
                let at: usize = p;
                let (_, value) = self.slots.swap_remove(at);
                drop_place(&mut self.index, name);
                let ghost last = before.slots@.len() - 1;
                if at < self.slots.len() {
                    let moved = self.slots[at].0.clone();
                    set_place(&mut self.index, moved, p);
                }
                assert forall|i: int| 0 <= i < self.slots@.len() implies places(
                    self.index,
                ).dom().contains(#[trigger] self.slots@[i].0@) && places(
                    self.index,
                )[self.slots@[i].0@] == i by {
                    assert(places(before.index).dom().contains(before.slots@[i].0@));
                    assert(places(before.index).dom().contains(before.slots@[last].0@));
                }
                assert forall|k: Seq<char>| #[trigger]
                    places(self.index).dom().contains(k) implies places(self.index)[k]
                    < self.slots@.len() && self.slots@[places(self.index)[k] as int].0@ == k by {
                    assert(places(before.index).dom().contains(before.slots@[last].0@));
                    assert(places(before.index).dom().contains(k));
                }
                assert(self@ =~= before@.remove(name@)) by {
                    assert(places(before.index).dom().contains(before.slots@[last].0@));
                }
                Some(value)
            },
            None => {
                assert(self@ =~= before@.remove(name@));
                None
            },
        }
    }

    /// The names of the table, each once, in no order to rely on.
    pub fn keys(&self) -> (r: Vec<String>)
        requires
            self.wf(),
        ensures
            lists_all(text::strs(r@), self@.dom()),
    {
        let all = all_places(&self.index);
        let mut names: Vec<String> = Vec::new();
        let mut i: usize = 0;
        while i < all.len()
            invariant
                i <= all@.len(),
                names@.len() == i,
                forall|k: int| 0 <= k < i ==> #[trigger] names@[k]@ == all@[k].0@,
            decreases all@.len() - i,
        {
            names.push(all[i].0.clone());
            i += 1;
        }
        assert forall|k: Seq<char>| #[trigger] self@.dom().contains(k) implies exists|j: int|
            0 <= j < names@.len() && #[trigger] text::strs(names@)[j] == k by {
            assert(places(self.index).dom().contains(k));
            let j = choose|j: int| 0 <= j < all@.len() && #[trigger] all@[j].0@ == k;
            assert(text::strs(names@)[j] == k);
        }
        names
    }
}

} // verus!
