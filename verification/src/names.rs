//! Tables keyed by names: a map from names to values that keeps insertion
//! order, and an interner that hands out dense ids.

use vstd::prelude::*;
use crate::text::{chars_of, same_text};

verus! {

/// The index of the first occurrence of `name` in `names`, if it occurs.
pub open spec fn position(names: Seq<Seq<char>>, name: Seq<char>) -> Option<int> {
    if exists|i: int| 0 <= i < names.len() && names[i] == name {
        Some(choose|i: int| first_at(names, name, i))
    } else {
        None
    }
}

/// `i` is the index of the first occurrence of `name` in `names`.
pub open spec fn first_at(names: Seq<Seq<char>>, name: Seq<char>, i: int) -> bool {
    &&& 0 <= i < names.len()
    &&& names[i] == name
    &&& forall|j: int| 0 <= j < i ==> names[j] != name
}

/// No name occurs twice.
pub open spec fn distinct(names: Seq<Seq<char>>) -> bool {
    forall|i: int, j: int| 0 <= i < j < names.len() ==> names[i] != names[j]
}

/// The names held by a vector of strings, in order.
pub open spec fn texts(strings: Seq<String>) -> Seq<Seq<char>> {
    Seq::new(strings.len(), |i: int| strings[i]@)
}

/// A first occurrence exists whenever an occurrence does, and `position` finds it.
pub proof fn lemma_position(names: Seq<Seq<char>>, name: Seq<char>)
    ensures
        match position(names, name) {
            Some(i) => first_at(names, name, i),
            None => forall|i: int| 0 <= i < names.len() ==> names[i] != name,
        },
{
    if exists|i: int| 0 <= i < names.len() && names[i] == name {
        let k = choose|i: int| 0 <= i < names.len() && names[i] == name;
        lemma_first_exists(names, name, k);
    }
}

/// Where a name occurs, it occurs for a first time.
proof fn lemma_first_exists(names: Seq<Seq<char>>, name: Seq<char>, k: int)
    requires
        0 <= k < names.len(),
        names[k] == name,
    ensures
        exists|i: int| first_at(names, name, i),
    decreases k,
{
    if forall|j: int| 0 <= j < k ==> names[j] != name {
        assert(first_at(names, name, k));
    } else {
        let j = choose|j: int| 0 <= j < k && names[j] == name;
        lemma_first_exists(names, name, j);
    }
}

/// The first occurrence is unique: whatever index meets `first_at` is the one
/// `position` returns.
pub proof fn lemma_position_is(names: Seq<Seq<char>>, name: Seq<char>, i: int)
    requires
        first_at(names, name, i),
    ensures
        position(names, name) == Some(i),
{
    lemma_position(names, name);
    let p = position(names, name)->0;
    if p < i {
        assert(names[p] != name);
    } else if i < p {
        assert(names[i] != name);
    }
}

/// Searches `names` for `name`, front to back.
pub fn find(names: &Vec<String>, name: &str) -> (found: Option<usize>)
    ensures
        match found {
            Some(i) => position(texts(names@), name@) == Some(i as int) && first_at(
                texts(names@),
                name@,
                i as int,
            ),
            None => position(texts(names@), name@) is None,
        },
{
    let chars = chars_of(name);
    let mut i: usize = 0;
    while i < names.len()
        invariant
            i <= names.len(),
            chars@ == name@,
            forall|j: int| 0 <= j < i ==> texts(names@)[j] != name@,
        decreases names.len() - i,
    {
        if same_text(names[i].as_str(), &chars) {
            proof {
                lemma_position_is(texts(names@), name@, i as int);
            }
            return Some(i);
        }
        i += 1;
    }
    None
}

/// An interner: it assigns each distinct name the next unused dense id, and a
/// repeated name the id it already has.
#[derive(Debug, Clone)]
pub struct Interner {
    names: Vec<String>,
}

/// The id that `name` has once it is interned into `names`.
pub open spec fn interned_id(names: Seq<Seq<char>>, name: Seq<char>) -> int {
    match position(names, name) {
        Some(i) => i,
        None => names.len() as int,
    }
}

/// The table after `name` is interned into `names`.
pub open spec fn interned(names: Seq<Seq<char>>, name: Seq<char>) -> Seq<Seq<char>> {
    if position(names, name) is Some {
        names
    } else {
        names.push(name)
    }
}

/// A name that has been interned keeps its id: interning it again gives the
/// same id and leaves the table as it is, and the id is that of no other
/// name.
pub proof fn law_repeated_name_keeps_its_id(names: Seq<Seq<char>>, name: Seq<char>)
    ensures
        interned_id(interned(names, name), name) == interned_id(names, name),
        interned(interned(names, name), name) == interned(names, name),
        0 <= interned_id(names, name) < interned(names, name).len(),
        interned(names, name)[interned_id(names, name)] == name,
        distinct(names) ==> distinct(interned(names, name)),
{
    lemma_position(names, name);
    let after = interned(names, name);
    if position(names, name) is None {
        lemma_position_is(after, name, names.len() as int);
    }
}

impl Interner {
    /// No name is interned twice, so ids and names correspond one to one.
    pub closed spec fn wf(&self) -> bool {
        distinct(texts(self.names@))
    }

    /// The interned names; the index of a name is its id.
    pub closed spec fn view(&self) -> Seq<Seq<char>> {
        texts(self.names@)
    }

    /// Ids and names correspond one to one: in a well-formed interner no name
    /// occurs twice.
    pub proof fn law_ids_and_names_correspond(&self)
        requires
            self.wf(),
        ensures
            distinct(self@),
    {
    }

    /// An empty interner.
    pub fn new() -> (table: Self)
        ensures
            table.wf(),
            table@ == Seq::<Seq<char>>::empty(),
    {
        Interner { names: Vec::new() }
    }

    /// The number of names interned so far, which is the next unused id.
    pub fn len(&self) -> (n: usize)
        ensures
            n == self@.len(),
    {
        self.names.len()
    }

    /// The id of `name`, interning it first if it is new.
    pub fn reference(&mut self, name: &str) -> (id: usize)
        requires
            old(self).wf(),
        ensures
            final(self).wf(),
            id == interned_id(old(self)@, name@),
            final(self)@ == interned(old(self)@, name@),
    {
        match find(&self.names, name) {
            Some(i) => i,
            None => {
                let id = self.names.len();
                let ghost before = texts(self.names@);
                self.names.push(crate::text::owned(name));
                proof {
                    lemma_position(before, name@);
                    assert(texts(self.names@) == before.push(name@));
                }
                id
            },
        }
    }

    /// The name with the given id.
    pub fn get(&self, id: usize) -> (name: Option<&String>)
        ensures
            match name {
                Some(s) => id < self@.len() && s@ == self@[id as int],
                None => id >= self@.len(),
            },
    {
        if id < self.names.len() {
            Some(&self.names[id])
        } else {
            None
        }
    }

    /// The id of `name`, if it has been interned.
    pub fn lookup(&self, name: &str) -> (id: Option<usize>)
        ensures
            match id {
                Some(i) => position(self@, name@) == Some(i as int),
                None => position(self@, name@) is None,
            },
    {
        find(&self.names, name)
    }

    /// The names in id order.
    pub fn to_vec(&self) -> (names: Vec<String>)
        ensures
            texts(names@) == self@,
    {
        let mut out: Vec<String> = Vec::new();
        let mut i: usize = 0;
        while i < self.names.len()
            invariant
                i <= self.names.len(),
                out.len() == i,
                forall|j: int| 0 <= j < i ==> out[j]@ == self.names[j]@,
            decreases self.names.len() - i,
        {
            out.push(self.names[i].clone());
            i += 1;
        }
        assert(texts(out@) =~= texts(self.names@));
        out
    }
}

/// A map from names to values that remembers the order in which the names
/// were first inserted.
#[derive(Debug, Clone)]
pub struct NameMap<V> {
    keys: Vec<String>,
    values: Vec<V>,
}

/// The map that pairs each name of `names` with the item at its first index.
pub open spec fn paired<V>(names: Seq<Seq<char>>, items: Seq<V>) -> Map<Seq<char>, V> {
    Map::new(
        |k: Seq<char>| position(names, k) is Some,
        |k: Seq<char>| items[position(names, k)->0],
    )
}

/// Appending a name that is new adds exactly that entry.
pub proof fn lemma_paired_push<V>(names: Seq<Seq<char>>, items: Seq<V>, name: Seq<char>, item: V)
    requires
        names.len() == items.len(),
        position(names, name) is None,
    ensures
        paired(names.push(name), items.push(item)) == paired(names, items).insert(name, item),
{
    let after = names.push(name);
    lemma_position(names, name);
    assert forall|k: Seq<char>|
        (#[trigger] position(after, k)) == (if k == name {
            Some(names.len() as int)
        } else {
            position(names, k)
        }) by {
        lemma_position(names, k);
        if k == name {
            lemma_position_is(after, k, names.len() as int);
        } else {
            match position(names, k) {
                Some(i) => {
                    lemma_position_is(after, k, i);
                },
                None => {
                    lemma_position(after, k);
                    if position(after, k) is Some {
                        let i = position(after, k)->0;
                        assert(after[i] == k);
                        assert(i < names.len());
                        assert(names[i] == k);
                    }
                },
            }
        }
    }
    let left = paired(after, items.push(item));
    let right = paired(names, items).insert(name, item);
    assert forall|k: Seq<char>| left.dom().contains(k) == right.dom().contains(k) && (
    left.dom().contains(k) ==> left[k] == right[k]) by {
        lemma_position(names, k);
        assert(position(after, k) == (if k == name {
            Some(names.len() as int)
        } else {
            position(names, k)
        }));
    }
    assert(left =~= right);
}

/// Replacing the item of a name that is present changes exactly that entry.
pub proof fn lemma_paired_update<V>(names: Seq<Seq<char>>, items: Seq<V>, name: Seq<char>, item: V)
    requires
        names.len() == items.len(),
        position(names, name) is Some,
    ensures
        paired(names, items.update(position(names, name)->0, item)) == paired(names, items).insert(
            name,
            item,
        ),
{
    let i = position(names, name)->0;
    lemma_position(names, name);
    assert forall|k: Seq<char>| k != name && position(names, k) is Some implies position(
        names,
        k,
    )->0 != i by {
        lemma_position(names, k);
    }
    let left = paired(names, items.update(i, item));
    let right = paired(names, items).insert(name, item);
    assert forall|k: Seq<char>| left.dom().contains(k) == right.dom().contains(k) && (
    left.dom().contains(k) ==> left[k] == right[k]) by {
        lemma_position(names, k);
    }
    assert(left =~= right);
}

impl<V> NameMap<V> {
    /// Every name has its item, and no name occurs twice.
    pub closed spec fn wf(&self) -> bool {
        &&& self.keys.len() == self.values.len()
        &&& distinct(texts(self.keys@))
    }

    /// The names, in the order in which they were first inserted.
    pub closed spec fn names(&self) -> Seq<Seq<char>> {
        texts(self.keys@)
    }

    /// The items, each at the index of its name.
    pub closed spec fn items(&self) -> Seq<V> {
        self.values@
    }

    /// The map from each name to its item.
    pub open spec fn view(&self) -> Map<Seq<char>, V> {
        paired(self.names(), self.items())
    }

    /// In a well-formed map no name occurs twice and every name has an item.
    pub proof fn law_names_occur_once(&self)
        requires
            self.wf(),
        ensures
            distinct(self.names()),
            self.names().len() == self.items().len(),
    {
    }

    /// An empty map.
    pub fn new() -> (table: Self)
        ensures
            table.wf(),
            table.names() == Seq::<Seq<char>>::empty(),
            table.items() == Seq::<V>::empty(),
            table@ == Map::<Seq<char>, V>::empty(),
    {
        let table = NameMap { keys: Vec::new(), values: Vec::new() };
        assert(table@ =~= Map::<Seq<char>, V>::empty());
        table
    }

    /// The number of names.
    pub fn len(&self) -> (n: usize)
        ensures
            n == self.names().len(),
    {
        self.keys.len()
    }

    /// The item of `name`, if the map holds one.
    pub fn get(&self, name: &str) -> (item: Option<&V>)
        requires
            self.wf(),
        ensures
            match item {
                Some(v) => self@.contains_key(name@) && *v == self@[name@],
                None => !self@.contains_key(name@),
            },
    {
        match find(&self.keys, name) {
            Some(i) => Some(&self.values[i]),
            None => None,
        }
    }

    /// The index of `name` in insertion order, if the map holds it.
    pub fn index_of(&self, name: &str) -> (index: Option<usize>)
        ensures
            match index {
                Some(i) => position(self.names(), name@) == Some(i as int),
                None => position(self.names(), name@) is None,
            },
    {
        find(&self.keys, name)
    }

    /// Whether the map holds `name`.
    pub fn contains_key(&self, name: &str) -> (held: bool)
        ensures
            held == self@.contains_key(name@),
    {
        find(&self.keys, name).is_some()
    }

    /// Pairs `name` with `item`. A name that is already held keeps its place
    /// and gets the new item; a new name goes to the end.
    pub fn insert(&mut self, name: String, item: V)
        requires
            old(self).wf(),
        ensures
            final(self).wf(),
            final(self)@ == old(self)@.insert(name@, item),
            match position(old(self).names(), name@) {
                Some(i) => final(self).names() == old(self).names() && final(self).items() == old(
                    self,
                ).items().update(i, item),
                None => final(self).names() == old(self).names().push(name@) && final(self).items()
                    == old(self).items().push(item),
            },
    {
        let ghost names = texts(self.keys@);
        let ghost items = self.values@;
        match find(&self.keys, name.as_str()) {
            Some(i) => {
                self.values[i] = item;
                proof {
                    lemma_paired_update(names, items, name@, item);
                }
            },
            None => {
                self.keys.push(name);
                self.values.push(item);
                proof {
                    lemma_position(names, name@);
                    assert(texts(self.keys@) == names.push(name@));
                    lemma_paired_push(names, items, name@, item);
                }
            },
        }
    }

    /// The name and the item at `index` in insertion order, if there are both.
    pub fn entry(&self, index: usize) -> (pair: Option<(&String, &V)>)
        ensures
            match pair {
                Some((name, item)) => index < self.names().len() && index < self.items().len()
                    && name@ == self.names()[index as int] && *item == self.items()[index as int],
                None => index >= self.names().len() || index >= self.items().len(),
            },
    {
        if index < self.keys.len() && index < self.values.len() {
            Some((&self.keys[index], &self.values[index]))
        } else {
            None
        }
    }

    /// The name at `index` in insertion order.
    pub fn name_at(&self, index: usize) -> (name: &String)
        requires
            index < self.names().len(),
        ensures
            name@ == self.names()[index as int],
    {
        &self.keys[index]
    }

    /// The item at `index` in insertion order.
    pub fn item_at(&self, index: usize) -> (item: &V)
        requires
            self.wf(),
            index < self.names().len(),
        ensures
            *item == self.items()[index as int],
    {
        &self.values[index]
    }
}

impl<V: Copy> NameMap<V> {
    /// A copy of the map: the same names in the same order, with the same items.
    pub fn duplicate(&self) -> (copy: Self)
        requires
            self.wf(),
        ensures
            copy.wf(),
            copy.names() == self.names(),
            copy.items() == self.items(),
            copy@ == self@,
    {
        let mut keys: Vec<String> = Vec::new();
        let mut values: Vec<V> = Vec::new();
        let mut i: usize = 0;
        while i < self.keys.len()
            invariant
                i <= self.keys.len(),
                self.keys.len() == self.values.len(),
                keys.len() == i,
                values.len() == i,
                forall|j: int| 0 <= j < i ==> keys[j]@ == self.keys[j]@,
                forall|j: int| 0 <= j < i ==> values[j] == self.values[j],
            decreases self.keys.len() - i,
        {
            keys.push(self.keys[i].clone());
            values.push(self.values[i]);
            i += 1;
        }
        assert(texts(keys@) =~= texts(self.keys@));
        assert(values@ =~= self.values@);
        NameMap { keys, values }
    }
}

} // verus!
