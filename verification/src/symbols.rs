use crate::text::str_eq;
use vstd::prelude::*;

verus! {

/// The map that a list of bindings stands for: a later binding of a name
/// replaces an earlier one.
pub open spec fn bindings_map<'a, V>(entries: Seq<(&'a str, V)>) -> Map<Seq<char>, V>
    decreases entries.len(),
{
    if entries.len() == 0 {
        Map::empty()
    } else {
        bindings_map(entries.drop_last()).insert(entries.last().0@, entries.last().1)
    }
}

/// Whether no two bindings of a list are of the same name.
pub open spec fn distinct_names<'a, V>(entries: Seq<(&'a str, V)>) -> bool {
    forall|i: int, j: int|
        0 <= i < j < entries.len() ==> (#[trigger] entries[i]).0@ != (#[trigger] entries[j]).0@
}

/// A name that no binding of the list holds is no key of its map.
proof fn lemma_absent<'a, V>(entries: Seq<(&'a str, V)>, name: Seq<char>)
    requires
        forall|i: int| 0 <= i < entries.len() ==> (#[trigger] entries[i]).0@ != name,
    ensures
        !bindings_map(entries).dom().contains(name),
    decreases entries.len(),
{
    if entries.len() > 0 {
        let front = entries.drop_last();
        assert forall|i: int| 0 <= i < front.len() implies (#[trigger] front[i]).0@ != name by {
            assert(front[i] == entries[i]);
        }
        lemma_absent(front, name);
        assert(entries.last() == entries[entries.len() - 1]);
    }
}

/// Where names are distinct, the map gives each name the value bound to it.
proof fn lemma_present<'a, V>(entries: Seq<(&'a str, V)>, at: int)
    requires
        distinct_names(entries),
        0 <= at < entries.len(),
    ensures
        bindings_map(entries).dom().contains(entries[at].0@),
        bindings_map(entries)[entries[at].0@] == entries[at].1,
    decreases entries.len(),
{
    let front = entries.drop_last();
    if at < entries.len() - 1 {
        assert forall|i: int, j: int| 0 <= i < j < front.len() implies (#[trigger] front[i]).0@
            != (#[trigger] front[j]).0@ by {
            assert(front[i] == entries[i]);
            assert(front[j] == entries[j]);
        }
        lemma_present(front, at);
        assert(front[at] == entries[at]);
        assert(entries[at].0@ != entries[entries.len() - 1].0@);
    }
}

/// The number of names of a list of distinct names.
proof fn lemma_count<'a, V>(entries: Seq<(&'a str, V)>)
    requires
        distinct_names(entries),
    ensures
        bindings_map(entries).dom().finite(),
        bindings_map(entries).dom().len() == entries.len(),
    decreases entries.len(),
{
    if entries.len() > 0 {
        let front = entries.drop_last();
        assert forall|i: int, j: int| 0 <= i < j < front.len() implies (#[trigger] front[i]).0@
            != (#[trigger] front[j]).0@ by {
            assert(front[i] == entries[i]);
            assert(front[j] == entries[j]);
        }
        lemma_count(front);
        assert forall|i: int| 0 <= i < front.len() implies (#[trigger] front[i]).0@
            != entries.last().0@ by {
            assert(front[i] == entries[i]);
            assert(entries.last() == entries[entries.len() - 1]);
        }
        lemma_absent(front, entries.last().0@);
    }
}

/// Replacing the value of a binding in place is an insertion into the map.
proof fn lemma_replace<'a, V>(entries: Seq<(&'a str, V)>, at: int, name: &'a str, value: V)
    requires
        distinct_names(entries),
        0 <= at < entries.len(),
        entries[at].0@ == name@,
    ensures
        distinct_names(entries.update(at, (name, value))),
        bindings_map(entries.update(at, (name, value))) == bindings_map(entries).insert(
            name@,
            value,
        ),
    decreases entries.len(),
{
    let changed = entries.update(at, (name, value));
    assert forall|i: int, j: int| 0 <= i < j < changed.len() implies (#[trigger] changed[i]).0@
        != (#[trigger] changed[j]).0@ by {
        assert(changed[i].0@ == entries[i].0@);
        assert(changed[j].0@ == entries[j].0@);
    }
    let front = entries.drop_last();
    if at == entries.len() - 1 {
        assert(changed.drop_last() =~= front);
        assert(bindings_map(changed) =~= bindings_map(entries).insert(name@, value));
    } else {
        assert forall|i: int, j: int| 0 <= i < j < front.len() implies (#[trigger] front[i]).0@
            != (#[trigger] front[j]).0@ by {
            assert(front[i] == entries[i]);
            assert(front[j] == entries[j]);
        }
        assert(front[at] == entries[at]);
        lemma_replace(front, at, name, value);
        assert(changed.drop_last() =~= front.update(at, (name, value)));
        assert(changed.last() == entries.last());
        assert(entries[at].0@ != entries[entries.len() - 1].0@);
        assert(bindings_map(changed) =~= bindings_map(entries).insert(name@, value));
    }
}

/// Bindings of names to values: a finite map keyed by the characters of the
/// name, in which each name is held once.
pub struct SymbolTable<'a, V> {
    entries: Vec<(&'a str, V)>,
}

impl<'a, V> View for SymbolTable<'a, V> {
    type V = Map<Seq<char>, V>;

    closed spec fn view(&self) -> Map<Seq<char>, V> {
        bindings_map(self.entries@)
    }
}

impl<'a, V: Copy> SymbolTable<'a, V> {
    /// The invariant of the table: no name is held twice.
    pub closed spec fn wf(&self) -> bool {
        distinct_names(self.entries@)
    }

    /// The table without any binding.
    pub fn new() -> (table: Self)
        ensures
            table.wf(),
            table@ == Map::<Seq<char>, V>::empty(),
    {
        SymbolTable { entries: Vec::new() }
    }

    /// The number of names that the table binds.
    pub fn len(&self) -> (n: usize)
        requires
            self.wf(),
        ensures
            self@.dom().finite(),
            n == self@.dom().len(),
    {
        proof {
            lemma_count(self.entries@);
        }
        self.entries.len()
    }

    /// Where the binding of `name` stands, if the table holds one.
    fn find(&self, name: &str) -> (found: Option<usize>)
        requires
            self.wf(),
        ensures
            match found {
                Some(at) => at < self.entries@.len() && self.entries@[at as int].0@ == name@,
                None => !self@.dom().contains(name@),
            },
    {
        let mut i: usize = 0;
        while i < self.entries.len()
            invariant
                i <= self.entries@.len(),
                forall|j: int| 0 <= j < i ==> (#[trigger] self.entries@[j]).0@ != name@,
            decreases self.entries@.len() - i,
        {
            if str_eq(self.entries[i].0, name) {
                return Some(i);
            }
            i += 1;
        }
        proof {
            lemma_absent(self.entries@, name@);
        }
        None
    }

    /// The value bound to `name`, if the table binds the name.
    pub fn get(&self, name: &str) -> (value: Option<V>)
        requires
            self.wf(),
        ensures
            value == if self@.dom().contains(name@) {
                Some(self@[name@])
            } else {
                None
            },
    {
        match self.find(name) {
            Some(at) => {
                proof {
                    lemma_present(self.entries@, at as int);
                }
                Some(self.entries[at].1)
            },
            None => None,
        }
    }

    /// Binds `name` to `value`, in place of the value that the name was bound
    /// to, if it was bound.
    pub fn insert(&mut self, name: &'a str, value: V)
        requires
            old(self).wf(),
        ensures
            final(self).wf(),
            final(self)@ == old(self)@.insert(name@, value),
    {
        match self.find(name) {
            Some(at) => {
                proof {
                    lemma_replace(self.entries@, at as int, name, value);
                }
                self.entries.set(at, (name, value));
            },
            None => {
                proof {
                    assert forall|i: int| 0 <= i < self.entries@.len() implies (
                    #[trigger] self.entries@[i]).0@ != name@ by {
                        lemma_present(self.entries@, i);
                    }
                }
                self.entries.push((name, value));
                assert(self.entries@.drop_last() =~= old(self).entries@);
            },
        }
    }
}

} // verus!
