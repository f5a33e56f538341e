//! A mapping from names to values that keeps its entries in the order in
//! which their names first came.

use vstd::prelude::*;

verus! {

/// Whether no name occurs twice among `entries`.
pub open spec fn names_distinct<T>(entries: Seq<(Seq<char>, T)>) -> bool {
    forall|i: int, j: int|
        0 <= i < j < entries.len() ==> (#[trigger] entries[i]).0 != (#[trigger] entries[j]).0
}

/// Whether `name` occurs among `entries`.
pub open spec fn has_name<T>(entries: Seq<(Seq<char>, T)>, name: Seq<char>) -> bool {
    exists|i: int| 0 <= i < entries.len() && (#[trigger] entries[i]).0 == name
}

/// A position at which `name` occurs among `entries`.
pub open spec fn place_of<T>(entries: Seq<(Seq<char>, T)>, name: Seq<char>) -> int {
    choose|i: int| 0 <= i < entries.len() && (#[trigger] entries[i]).0 == name
}

/// `entries` with `value` under `name`: in the place of the entry of that
/// name, or at the end where there is none.
pub open spec fn with_entry<T>(entries: Seq<(Seq<char>, T)>, name: Seq<char>, value: T) -> Seq<
    (Seq<char>, T),
> {
    if has_name(entries, name) {
        entries.update(place_of(entries, name), (name, value))
    } else {
        entries.push((name, value))
    }
}

/// What comes of putting the entries of `entries` one after the other,
/// from the first on, each in the place of an earlier one of its name.
pub open spec fn gathered<T>(entries: Seq<(Seq<char>, T)>) -> Seq<(Seq<char>, T)>
    decreases entries.len(),
{
    if entries.len() == 0 {
        Seq::empty()
    } else {
        with_entry(gathered(entries.drop_last()), entries.last().0, entries.last().1)
    }
}

/// The mapping that `entries` spell out.
pub open spec fn entries_map<T>(entries: Seq<(Seq<char>, T)>) -> Map<Seq<char>, T> {
    Map::new(
        |name: Seq<char>| has_name(entries, name),
        |name: Seq<char>| entries[place_of(entries, name)].1,
    )
}

/// Named values, each name once. The view is the sequence of entries, name
/// and value's view, in the order in which the names first came.
#[derive(Debug, PartialEq, Eq)]
pub struct NameMap<V: View> {
    entries: Vec<(String, V)>,
}

impl<V: View> View for NameMap<V> {
    type V = Seq<(Seq<char>, V::V)>;

    closed spec fn view(&self) -> Seq<(Seq<char>, V::V)> {
        Seq::new(self.entries@.len(), |i: int| (self.entries@[i].0@, self.entries@[i].1@))
    }
}

impl<V: View> NameMap<V> {
    /// No name occurs twice.
    pub open spec fn wf(&self) -> bool {
        names_distinct(self@)
    }

    #[verifier::type_invariant]
    spec fn each_name_once(&self) -> bool {
        self.wf()
    }

    /// The mapping from names to the views of the values.
    pub open spec fn as_map(&self) -> Map<Seq<char>, V::V> {
        entries_map(self@)
    }

    /// A mapping without entries.
    pub fn new() -> (map: Self)
        ensures
            map@ == Seq::<(Seq<char>, V::V)>::empty(),
            map.wf(),
    {
        let map = NameMap { entries: Vec::new() };
        assert(map@ =~= Seq::<(Seq<char>, V::V)>::empty());
        map
    }

    /// A mapping of the entries given, whose names differ.
    pub fn from_entries(entries: Vec<(String, V)>) -> (map: Self)
        requires
            names_distinct(
                Seq::new(entries@.len(), |i: int| (entries@[i].0@, entries@[i].1@)),
            ),
        ensures
            map@ == Seq::new(entries@.len(), |i: int| (entries@[i].0@, entries@[i].1@)),
            map.wf(),
    {
        let ghost wanted = Seq::new(entries@.len(), |i: int| (entries@[i].0@, entries@[i].1@));
        let map = NameMap { entries };
        assert(map@ =~= wanted);
        map
    }

    /// The number of entries.
    pub fn len(&self) -> (count: usize)
        ensures
            count == self@.len(),
            self.wf(),
    {
        proof {
            use_type_invariant(self);
        }
        self.entries.len()
    }

    /// The name of the entry at position `i`.
    pub fn name_at(&self, i: usize) -> (name: &String)
        requires
            i < self@.len(),
        ensures
            name@ == self@[i as int].0,
    {
        &self.entries[i].0
    }

    /// The value of the entry at position `i`.
    pub fn value_at(&self, i: usize) -> (value: &V)
        requires
            i < self@.len(),
        ensures
            value@ == self@[i as int].1,
    {
        &self.entries[i].1
    }

    /// The position of the entry called `name`, if there is one.
    pub fn position(&self, name: &String) -> (place: Option<usize>)
        ensures
            self.wf(),
            place.is_some() == has_name(self@, name@),
            place matches Some(i) ==> i < self@.len() && self@[i as int].0 == name@ && i
                == place_of(self@, name@),
    {
        proof {
            use_type_invariant(self);
        }
        let mut i: usize = 0;
        while i < self.entries.len()
            invariant
                i <= self.entries.len(),
                self.wf(),
                self@.len() == self.entries@.len(),
                forall|k: int| 0 <= k < i ==> (#[trigger] self@[k]).0 != name@,
            decreases self.entries.len() - i,
        {
            if self.entries[i].0 == *name {
                assert(self@[i as int].0 == name@);
                assert(has_name(self@, name@));
                let ghost p = place_of(self@, name@);
                assert(p == i) by {
                    if p < i {
                        assert(self@[p].0 != name@);
                    } else if p > i {
                        assert(self@[i as int].0 != self@[p].0);
                    }
                }
                return Some(i);
            }
            i = i + 1;
        }
        None
    }

    /// The value called `name`, if there is one.
    pub fn get(&self, name: &String) -> (value: Option<&V>)
        ensures
            self.wf(),
            value.is_some() == self.as_map().dom().contains(name@),
            value matches Some(v) ==> v@ == self.as_map()[name@],
    {
        match self.position(name) {
            Some(i) => Some(self.value_at(i)),
            None => None,
        }
    }

    /// Puts `value` under `name`, in the place of what was there under
    /// that name.
    pub fn insert(&mut self, name: String, value: V)
        ensures
            final(self)@ == with_entry(old(self)@, name@, value@),
            final(self).as_map() == old(self).as_map().insert(name@, value@),
            final(self).wf(),
    {
        proof {
            use_type_invariant(&*self);
        }
        let ghost before = self@;
        let ghost name_view = name@;
        let ghost value_view = value@;
        let place = self.position(&name);
        let mut taken = NameMap { entries: Vec::new() };
        assert(taken@ =~= Seq::<(Seq<char>, V::V)>::empty());
        core::mem::swap(self, &mut taken);
        let NameMap { entries } = taken;
        let mut entries = entries;
        match place {
            Some(i) => {
                entries.set(i, (name, value));
            },
            None => {
                entries.push((name, value));
            },
        }
        let ghost after = Seq::new(entries@.len(), |i: int| (entries@[i].0@, entries@[i].1@));
        proof {
            lemma_with_entry(before, name_view, value_view);
            assert(after =~= with_entry(before, name_view, value_view));
        }
        *self = NameMap { entries };
        assert(self@ =~= after);
    }
}

/// Putting a value under a name keeps each name once, and changes the
/// mapping at that name only.
pub proof fn lemma_with_entry<T>(entries: Seq<(Seq<char>, T)>, name: Seq<char>, value: T)
    requires
        names_distinct(entries),
    ensures
        names_distinct(with_entry(entries, name, value)),
        entries_map(with_entry(entries, name, value)) == entries_map(entries).insert(name, value),
{
    let after = with_entry(entries, name, value);
    let goal = entries_map(entries).insert(name, value);
    if has_name(entries, name) {
        let p = place_of(entries, name);
        assert(after == entries.update(p, (name, value)));
        assert forall|i: int, j: int| 0 <= i < j < after.len() implies (#[trigger] after[i]).0 != (
        #[trigger] after[j]).0 by {
            assert(entries[i].0 != entries[j].0);
        }
        assert forall|n: Seq<char>| has_name(after, n) == has_name(entries, n) by {
            if has_name(after, n) {
                let i = place_of(after, n);
                assert(entries[i].0 == n);
            }
            if has_name(entries, n) {
                let i = place_of(entries, n);
                assert(after[i].0 == n);
            }
        }
        assert forall|n: Seq<char>| has_name(after, n) implies #[trigger] entries_map(after)[n]
            == goal[n] by {
            let i = place_of(after, n);
            if n == name {
                assert(i == p) by {
                    if i < p {
                        assert(entries[i].0 != entries[p].0);
                    } else if p < i {
                        assert(entries[p].0 != entries[i].0);
                    }
                }
            } else {
                let k = place_of(entries, n);
                assert(entries[i].0 == n);
                assert(i == k) by {
                    if i < k {
                        assert(entries[i].0 != entries[k].0);
                    } else if k < i {
                        assert(entries[k].0 != entries[i].0);
                    }
                }
            }
        }
        assert(entries_map(after).dom() =~= goal.dom());
        assert(entries_map(after) =~= goal);
    } else {
        assert(after == entries.push((name, value)));
        assert forall|i: int, j: int| 0 <= i < j < after.len() implies (#[trigger] after[i]).0 != (
        #[trigger] after[j]).0 by {
            if j < entries.len() {
                assert(entries[i].0 != entries[j].0);
            } else {
                assert(entries[i].0 != name);
            }
        }
        assert(after[entries.len() as int].0 == name);
        assert forall|n: Seq<char>| has_name(after, n) == (has_name(entries, n) || n == name) by {
            if has_name(after, n) {
                let i = place_of(after, n);
                if i < entries.len() {
                    assert(entries[i].0 == n);
                }
            }
            if has_name(entries, n) {
                let i = place_of(entries, n);
                assert(after[i].0 == n);
            }
        }
        assert forall|n: Seq<char>| has_name(after, n) implies #[trigger] entries_map(after)[n]
            == goal[n] by {
            let i = place_of(after, n);
            if n == name {
                assert(i == entries.len()) by {
                    if i < entries.len() {
                        assert(entries[i].0 == name);
                    }
                }
            } else {
                let k = place_of(entries, n);
                assert(i < entries.len());
                assert(entries[i].0 == n);
                assert(i == k) by {
                    if i < k {
                        assert(entries[i].0 != entries[k].0);
                    } else if k < i {
                        assert(entries[k].0 != entries[i].0);
                    }
                }
            }
        }
        assert(entries_map(after).dom() =~= goal.dom());
        assert(entries_map(after) =~= goal);
    }
}

/// Entries whose names differ are gathered as they stand.
pub proof fn lemma_gathered_distinct<T>(entries: Seq<(Seq<char>, T)>)
    requires
        names_distinct(entries),
    ensures
        gathered(entries) == entries,
    decreases entries.len(),
{
    if entries.len() > 0 {
        let front = entries.drop_last();
        assert forall|i: int, j: int| 0 <= i < j < front.len() implies (#[trigger] front[i]).0 != (
        #[trigger] front[j]).0 by {
            assert(entries[i].0 != entries[j].0);
        }
        lemma_gathered_distinct(front);
        if has_name(front, entries.last().0) {
            let p = place_of(front, entries.last().0);
            assert(entries[p].0 != entries[entries.len() - 1].0);
        }
        assert(front.push((entries.last().0, entries.last().1)) =~= entries);
    }
}

/// Among entries whose names differ, each is what the mapping holds under
/// its name.
pub proof fn lemma_entry_in_map<T>(entries: Seq<(Seq<char>, T)>, k: int)
    requires
        names_distinct(entries),
        0 <= k < entries.len(),
    ensures
        has_name(entries, entries[k].0),
        place_of(entries, entries[k].0) == k,
        entries_map(entries)[entries[k].0] == entries[k].1,
{
    assert(entries[k].0 == entries[k].0);
    assert(has_name(entries, entries[k].0));
    let p = place_of(entries, entries[k].0);
    if p < k {
        assert(entries[p].0 != entries[k].0);
    } else if k < p {
        assert(entries[k].0 != entries[p].0);
    }
}

/// Two lists of entries, each with names that differ, spell out the same
/// mapping where each entry of the first is in the second's mapping with
/// the same value, and each name of the second is in the first's mapping.
pub proof fn lemma_same_entries<T>(left: Seq<(Seq<char>, T)>, right: Seq<(Seq<char>, T)>)
    requires
        names_distinct(left),
        names_distinct(right),
        forall|m: int|
            0 <= m < left.len() ==> entries_map(right).dom().contains((#[trigger] left[m]).0)
                && entries_map(right)[left[m].0] == left[m].1,
        forall|m: int|
            0 <= m < right.len() ==> entries_map(left).dom().contains((#[trigger] right[m]).0),
    ensures
        entries_map(left) == entries_map(right),
{
    assert forall|name: Seq<char>|
        entries_map(left).dom().contains(name) == entries_map(right).dom().contains(name) by {
        if has_name(left, name) {
            let k = place_of(left, name);
            assert(entries_map(right).dom().contains(left[k].0));
        }
        if has_name(right, name) {
            let k = place_of(right, name);
            assert(entries_map(left).dom().contains(right[k].0));
        }
    }
    assert forall|name: Seq<char>| entries_map(left).dom().contains(name) implies entries_map(
        left,
    )[name] == entries_map(right)[name] by {
        let k = place_of(left, name);
        assert(entries_map(right)[left[k].0] == left[k].1);
    }
    assert(entries_map(left).dom() =~= entries_map(right).dom());
    assert(entries_map(left) =~= entries_map(right));
}

} // verus!
