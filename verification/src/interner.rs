//! Gives each distinct string a small number.

use vstd::hash_map::StringHashMap;
use vstd::prelude::*;

verus! {

/// What interning `name` makes of the list `names`, and the id it gives: a
/// string of the list keeps the list as it is and has its place as id, a new one
/// is put at the end.
pub open spec fn interned(names: Seq<Seq<char>>, name: Seq<char>) -> (Seq<Seq<char>>, int) {
    if names.contains(name) {
        (names, names.index_of(name))
    } else {
        (names.push(name), names.len() as int)
    }
}

/// Interning keeps a list free of repetitions so, and the id it gives is the
/// string's place in the new list.
pub proof fn lemma_interned_place(names: Seq<Seq<char>>, name: Seq<char>)
    requires
        names.no_duplicates(),
    ensures
        interned(names, name).0.no_duplicates(),
        0 <= interned(names, name).1 < interned(names, name).0.len(),
        interned(names, name).0[interned(names, name).1] == name,
        forall|i: int| 0 <= i < names.len() ==> interned(names, name).0[i] == names[i],
{
    if names.contains(name) {
        let i = names.index_of(name);
        assert(names[i] == name);
    } else {
        let after = names.push(name);
        assert forall|i: int, j: int| 0 <= i < j < after.len() implies after[i] != after[j] by {
            if j == names.len() {
                assert(names[i] == after[i]);
            } else {
                assert(names[i] == after[i] && names[j] == after[j]);
            }
        }
    }
}

/// Interning the same string a second time gives the same id and leaves the
/// list as the first time left it.
pub proof fn lemma_intern_again(names: Seq<Seq<char>>, name: Seq<char>)
    requires
        names.no_duplicates(),
    ensures
        interned(interned(names, name).0, name) == interned(names, name),
{
    lemma_interned_place(names, name);
    let once = interned(names, name);
    assert(once.0[once.1] == name);
    assert(once.0.contains(name));
    let i = once.0.index_of(name);
    assert(once.0[i] == name);
}

/// Two different strings, interned one after the other, get different ids.
pub proof fn lemma_intern_distinct(names: Seq<Seq<char>>, first: Seq<char>, second: Seq<char>)
    requires
        names.no_duplicates(),
        first != second,
    ensures
        interned(interned(names, first).0, second).1 != interned(names, first).1,
{
    lemma_interned_place(names, first);
    let once = interned(names, first);
    lemma_interned_place(once.0, second);
    let twice = interned(once.0, second);
    assert(twice.0[once.1] == once.0[once.1]);
}

/// Ids are given in the order in which strings are first seen, from 0 on: a
/// string that is new to a list of `n` strings gets the id `n`.
pub proof fn lemma_intern_fresh(names: Seq<Seq<char>>, name: Seq<char>)
    requires
        !names.contains(name),
    ensures
        interned(names, name).1 == names.len(),
        interned(Seq::<Seq<char>>::empty(), name).1 == 0,
{
    assert(!Seq::<Seq<char>>::empty().contains(name));
}

/// Hands out ids in the order in which strings are first seen, from 0 on, and
/// the same id again for a string seen before.
pub struct StringInterner {
    map: StringHashMap<u32>,
    vec: Vec<String>,
}

impl StringInterner {
    /// The strings interned so far, each at the place of its id.
    pub closed spec fn names(&self) -> Seq<Seq<char>> {
        self.vec@.map_values(|s: String| s@)
    }

    /// The lookup structure and the list agree, and ids fit their type.
    pub closed spec fn wf(&self) -> bool {
        &&& self.vec@.len() <= u32::MAX + 1
        &&& self.names().no_duplicates()
        &&& forall|name: Seq<char>| #[trigger]
            self.map@.contains_key(name) <==> self.names().contains(name)
        &&& forall|i: int|
            0 <= i < self.vec@.len() ==> self.map@[#[trigger] self.names()[i]] == i
    }

    /// An interner that has seen no string.
    pub fn new() -> (interner: Self)
        ensures
            interner.wf(),
            interner.names() == Seq::<Seq<char>>::empty(),
    {
        let interner = StringInterner { map: StringHashMap::new(), vec: Vec::new() };
        assert(interner.names() =~= Seq::<Seq<char>>::empty());
        interner
    }

    /// The number of strings interned so far.
    pub fn len(&self) -> (n: usize)
        ensures
            n == self.names().len(),
    {
        self.vec.len()
    }

    /// A well-formed interner holds no string twice.
    pub proof fn lemma_distinct(&self)
        requires
            self.wf(),
        ensures
            self.names().no_duplicates(),
    {
    }

    /// The id of `s`: the one it got when it was first seen, or else the next
    /// free one, under which it is then recorded.
    pub fn get_or_intern(&mut self, s: &str) -> (id: u32)
        requires
            old(self).wf(),
            old(self).names().contains(s@) || old(self).names().len() <= u32::MAX,
        ensures
            final(self).wf(),
            final(self).names() == interned(old(self).names(), s@).0,
            id == interned(old(self).names(), s@).1,
            id < final(self).names().len(),
            final(self).names()[id as int] == s@,
    {
        let known = self.map.get(s);
        if let Some(id) = known {
            let id = *id;
            proof {
                let i = self.names().index_of(s@);
                assert(self.names()[i] == s@);
                assert(self.names()[id as int] == s@);
            }
            return id;
        }
        let ghost before = self.names();
        let id = self.vec.len() as u32;
        self.map.insert(s.to_owned(), id);
        self.vec.push(s.to_owned());
        proof {
            let after = self.names();
            assert(after =~= before.push(s@));
            assert forall|i: int, j: int| 0 <= i < j < after.len() implies after[i] != after[j] by {
                if j == before.len() {
                    assert(before[i] == after[i]);
                } else {
                    assert(before[i] == after[i] && before[j] == after[j]);
                }
            }
            assert forall|name: Seq<char>| #[trigger]
                self.map@.contains_key(name) <==> after.contains(name) by {
                if name == s@ {
                    assert(after[before.len() as int] == s@);
                } else if before.contains(name) {
                    let i = before.index_of(name);
                    assert(after[i] == name);
                } else if after.contains(name) {
                    let i = after.index_of(name);
                    assert(before[i] == name);
                }
            }
            assert forall|i: int| 0 <= i < after.len() implies self.map@[#[trigger] after[i]]
                == i by {
                if i < before.len() {
                    assert(before[i] == after[i]);
                }
            }
        }
        id
    }

    /// The interned strings, each at the place of its id.
    pub fn into_vec(self) -> (names: Vec<String>)
        ensures
            names@.map_values(|s: String| s@) == self.names(),
    {
        self.vec
    }
}

} // verus!
