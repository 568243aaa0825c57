//! A finite mapping from names to strings, with unique names and
//! last-write-wins insertion.

use vstd::prelude::*;

verus! {

/// Whether some pair carries the name `name`.
pub open spec fn has_name(pairs: Seq<(Seq<char>, Seq<char>)>, name: Seq<char>) -> bool {
    exists|i: int| 0 <= i < pairs.len() && (#[trigger] pairs[i]).0 == name
}

/// Whether no two pairs carry the same name.
pub open spec fn distinct_names(pairs: Seq<(Seq<char>, Seq<char>)>) -> bool {
    forall|i: int, j: int|
        0 <= i < j < pairs.len() ==> (#[trigger] pairs[i]).0 != (#[trigger] pairs[j]).0
}

/// The mapping that sends each name among `pairs` to the string paired
/// with it.
pub open spec fn table(pairs: Seq<(Seq<char>, Seq<char>)>) -> Map<Seq<char>, Seq<char>> {
    Map::new(
        |name: Seq<char>| has_name(pairs, name),
        |name: Seq<char>|
            pairs[choose|i: int| 0 <= i < pairs.len() && (#[trigger] pairs[i]).0 == name].1,
    )
}

/// Whether `pairs` lists the mapping `m`: each name of `m` once, in any
/// order, beside the string that `m` gives it.
pub open spec fn is_listing(
    pairs: Seq<(Seq<char>, Seq<char>)>,
    m: Map<Seq<char>, Seq<char>>,
) -> bool {
    &&& distinct_names(pairs)
    &&& forall|i: int|
        0 <= i < pairs.len() ==> m.contains_key((#[trigger] pairs[i]).0) && m[pairs[i].0]
            == pairs[i].1
    &&& forall|name: Seq<char>| m.contains_key(name) ==> has_name(pairs, name)
}

/// The views of a sequence of pairs of strings.
pub open spec fn pair_views(pairs: Seq<(String, String)>) -> Seq<(Seq<char>, Seq<char>)> {
    pairs.map_values(|p: (String, String)| (p.0@, p.1@))
}

/// A mapping from names to strings. Each name is bound at most once; binding
/// a name again replaces what it was bound to.
pub struct Bindings {
    entries: Vec<(String, String)>,
}

impl View for Bindings {
    type V = Map<Seq<char>, Seq<char>>;

    closed spec fn view(&self) -> Map<Seq<char>, Seq<char>> {
        table(pair_views(self.entries@))
    }
}

impl Bindings {
    #[verifier::type_invariant]
    spec fn names_are_distinct(&self) -> bool {
        distinct_names(pair_views(self.entries@))
    }

    /// The empty mapping.
    pub fn new() -> (bindings: Bindings)
        ensures
            bindings@ == Map::<Seq<char>, Seq<char>>::empty(),
    {
        let bindings = Bindings { entries: Vec::new() };
        assert(bindings@ =~= Map::<Seq<char>, Seq<char>>::empty());
        bindings
    }

    /// Where `name` stands among the entries.
    fn position(&self, name: &str) -> (found: Option<usize>)
        ensures
            match found {
                Some(i) => i < self.entries@.len() && pair_views(self.entries@)[i as int].0
                    == name@,
                None => !has_name(pair_views(self.entries@), name@),
            },
    {
        let key = name.to_owned();
        let n: usize = self.entries.len();
        let mut i: usize = 0;
        while i < n
            invariant
                key@ == name@,
                n == self.entries@.len(),
                i <= n,
                forall|k: int| 0 <= k < i ==> (#[trigger] self.entries@[k]).0@ != name@,
            decreases n - i,
        {
            if self.entries[i].0 == key {
                return Some(i);
            }
            i += 1;
        }
        proof {
            let pairs = pair_views(self.entries@);
            if has_name(pairs, name@) {
                let k = choose|k: int| 0 <= k < pairs.len() && (#[trigger] pairs[k]).0 == name@;
                assert(self.entries@[k].0@ == name@);
            }
        }
        None
    }

    /// Whether `name` is bound.
    pub fn contains_key(&self, name: &str) -> (found: bool)
        ensures
            found == self@.contains_key(name@),
    {
        self.position(name).is_some()
    }

    /// What `name` is bound to.
    pub fn get(&self, name: &str) -> (found: Option<&String>)
        ensures
            match found {
                Some(value) => self@.contains_key(name@) && self@[name@] == value@,
                None => !self@.contains_key(name@),
            },
    {
        proof {
            use_type_invariant(self);
            lemma_table_listing(pair_views(self.entries@));
        }
        match self.position(name) {
            Some(i) => Some(&self.entries[i].1),
            None => None,
        }
    }

    /// The number of names bound.
    pub fn len(&self) -> (n: usize)
        ensures
            self@.dom().finite(),
            n == self@.len(),
    {
        proof {
            use_type_invariant(self);
            lemma_table_listing(pair_views(self.entries@));
            lemma_listing_len(pair_views(self.entries@), self@);
        }
        self.entries.len()
    }

    /// Binds `name` to `value`, in place of what it was bound to before.
    pub fn insert(&mut self, name: String, value: String)
        ensures
            final(self)@ == old(self)@.insert(name@, value@),
    {
        proof {
            use_type_invariant(&*self);
        }
        let ghost before = pair_views(self.entries@);
        let found = self.position(name.as_str());
        let mut entries: Vec<(String, String)> = Vec::new();
        std::mem::swap(&mut entries, &mut self.entries);
        match found {
            Some(i) => {
                proof {
                    lemma_table_update(before, i as int, name@, value@);
                }
                entries.set(i, (name, value));
                assert(pair_views(entries@) =~= before.update(i as int, (name@, value@)));
            },
            None => {
                proof {
                    lemma_table_push(before, name@, value@);
                }
                entries.push((name, value));
                assert(pair_views(entries@) =~= before.push((name@, value@)));
            },
        }
        self.entries = entries;
    }

    /// Removes the binding of `name`, and says whether there was one.
    pub fn remove(&mut self, name: &str) -> (removed: bool)
        ensures
            removed == old(self)@.contains_key(name@),
            final(self)@ == old(self)@.remove(name@),
    {
        proof {
            use_type_invariant(&*self);
        }
        let ghost before = pair_views(self.entries@);
        match self.position(name) {
            Some(i) => {
                proof {
                    lemma_table_remove(before, i as int);
                }
                let mut entries: Vec<(String, String)> = Vec::new();
                std::mem::swap(&mut entries, &mut self.entries);
                let _ = entries.remove(i);
                assert(pair_views(entries@) =~= before.remove(i as int));
                self.entries = entries;
                true
            },
            None => {
                proof {
                    lemma_table_without(before, name@);
                }
                false
            },
        }
    }

    /// Adds every binding of `other`; where both bind a name, the binding
    /// of `other` stays.
    pub fn extend(&mut self, other: &Bindings)
        ensures
            final(self)@ == old(self)@.union_prefer_right(other@),
    {
        proof {
            use_type_invariant(other);
        }
        let ghost theirs = pair_views(other.entries@);
        let n: usize = other.entries.len();
        let mut i: usize = 0;
        assert(self@ =~= old(self)@.union_prefer_right(table(theirs.take(0))));
        while i < n
            invariant
                n == other.entries@.len(),
                i <= n,
                theirs == pair_views(other.entries@),
                distinct_names(theirs),
                self@ == old(self)@.union_prefer_right(table(theirs.take(i as int))),
            decreases n - i,
        {
            let ghost done = table(theirs.take(i as int));
            let name = other.entries[i].0.clone();
            let value = other.entries[i].1.clone();
            proof {
                lemma_table_take(theirs, i as int);
                assert(theirs[i as int] == (name@, value@));
                assert(old(self)@.union_prefer_right(done).insert(name@, value@) =~= old(
                    self,
                )@.union_prefer_right(done.insert(name@, value@)));
            }
            self.insert(name, value);
            i += 1;
        }
        assert(theirs.take(n as int) =~= theirs);
    }

    /// The bindings as pairs of name and string, each name once.
    pub fn to_vec(&self) -> (pairs: Vec<(String, String)>)
        ensures
            is_listing(pair_views(pairs@), self@),
    {
        proof {
            use_type_invariant(self);
            lemma_table_listing(pair_views(self.entries@));
        }
        let mut pairs: Vec<(String, String)> = Vec::new();
        let n: usize = self.entries.len();
        let mut i: usize = 0;
        assert(pair_views(pairs@) =~= pair_views(self.entries@).take(0));
        while i < n
            invariant
                n == self.entries@.len(),
                i <= n,
                pair_views(pairs@) == pair_views(self.entries@).take(i as int),
            decreases n - i,
        {
            let name = self.entries[i].0.clone();
            let value = self.entries[i].1.clone();
            proof {
                let next = pair_views(pairs@.push((name, value)));
                let goal = pair_views(self.entries@).take(i + 1);
                assert(pair_views(pairs@).len() == pairs@.len());
                assert(next.len() == goal.len());
                assert forall|k: int| 0 <= k < next.len() implies next[k] == goal[k] by {
                    if k < i {
                        assert(next[k] == pair_views(pairs@)[k]);
                    }
                }
                assert(next =~= goal);
            }
            pairs.push((name, value));
            i += 1;
        }
        assert(pair_views(self.entries@).take(n as int) =~= pair_views(self.entries@));
        pairs
    }
}

/// Pairs with distinct names list the table that they make.
pub proof fn lemma_table_listing(pairs: Seq<(Seq<char>, Seq<char>)>)
    requires
        distinct_names(pairs),
    ensures
        is_listing(pairs, table(pairs)),
{
    let m = table(pairs);
    assert forall|i: int| 0 <= i < pairs.len() implies m.contains_key((#[trigger] pairs[i]).0)
        && m[pairs[i].0] == pairs[i].1 by {
        let name = pairs[i].0;
        let j = choose|j: int| 0 <= j < pairs.len() && (#[trigger] pairs[j]).0 == name;
        assert(j == i);
    }
}

/// A listing determines the mapping: two mappings that the same pairs list
/// are the same mapping.
pub proof fn lemma_listing_determines_map(
    pairs: Seq<(Seq<char>, Seq<char>)>,
    m1: Map<Seq<char>, Seq<char>>,
    m2: Map<Seq<char>, Seq<char>>,
)
    requires
        is_listing(pairs, m1),
        is_listing(pairs, m2),
    ensures
        m1 == m2,
{
    assert forall|name: Seq<char>| #[trigger] m1.dom().contains(name) implies m2.dom().contains(
        name,
    ) && m1[name] == m2[name] by {
        assert(has_name(pairs, name));
        let i = choose|i: int| 0 <= i < pairs.len() && (#[trigger] pairs[i]).0 == name;
        assert(m2.contains_key(pairs[i].0));
    }
    assert forall|name: Seq<char>| #[trigger] m2.dom().contains(name) implies m1.dom().contains(
        name,
    ) by {
        assert(has_name(pairs, name));
        let i = choose|i: int| 0 <= i < pairs.len() && (#[trigger] pairs[i]).0 == name;
        assert(m1.contains_key(pairs[i].0));
    }
    assert(m1.dom() =~= m2.dom());
    assert(m1 =~= m2);
}

/// The names of a listing are the domain of the mapping, each once, so the
/// mapping is finite and has as many entries as the listing has pairs.
pub proof fn lemma_listing_len(pairs: Seq<(Seq<char>, Seq<char>)>, m: Map<Seq<char>, Seq<char>>)
    requires
        is_listing(pairs, m),
    ensures
        m.dom().finite(),
        m.len() == pairs.len(),
{
    let names = pairs.map_values(|p: (Seq<char>, Seq<char>)| p.0);
    assert forall|i: int, j: int|
        0 <= i < names.len() && 0 <= j < names.len() && i != j implies names[i] != names[j] by {
        assert(names[i] == pairs[i].0 && names[j] == pairs[j].0);
        if i < j {
            assert(pairs[i].0 != pairs[j].0);
        } else {
            assert(pairs[j].0 != pairs[i].0);
        }
    }
    assert forall|name: Seq<char>| m.dom().contains(name) <==> names.to_set().contains(name) by {
        if m.dom().contains(name) {
            assert(m.contains_key(name));
            assert(has_name(pairs, name));
            let i = choose|i: int| 0 <= i < pairs.len() && (#[trigger] pairs[i]).0 == name;
            assert(names[i] == name);
        }
        if names.to_set().contains(name) {
            let i = choose|i: int| 0 <= i < names.len() && names[i] == name;
            assert(pairs[i].0 == name);
        }
    }
    assert(m.dom() =~= names.to_set());
    names.unique_seq_to_set();
    vstd::seq_lib::seq_to_set_is_finite(names);
}

/// Pairs that hold no `name` make a table without it.
pub proof fn lemma_table_without(pairs: Seq<(Seq<char>, Seq<char>)>, name: Seq<char>)
    requires
        !has_name(pairs, name),
    ensures
        !table(pairs).contains_key(name),
        table(pairs).remove(name) == table(pairs),
{
    assert(table(pairs).remove(name) =~= table(pairs));
}

/// One more pair, under a name that the pairs do not hold yet, is one more
/// entry of the table.
pub proof fn lemma_table_push(pairs: Seq<(Seq<char>, Seq<char>)>, name: Seq<char>, value: Seq<char>)
    requires
        distinct_names(pairs),
        !has_name(pairs, name),
    ensures
        distinct_names(pairs.push((name, value))),
        table(pairs.push((name, value))) == table(pairs).insert(name, value),
{
    let after = pairs.push((name, value));
    assert forall|a: int, b: int| 0 <= a < b < after.len() implies (#[trigger] after[a]).0 != (
    #[trigger] after[b]).0 by {
        assert(after[a] == pairs[a]);
        if b < pairs.len() {
            assert(after[b] == pairs[b]);
        }
    }
    lemma_table_listing(pairs);
    lemma_table_listing(after);
    let goal = table(pairs).insert(name, value);
    assert forall|k: Seq<char>| #[trigger] table(after).dom().contains(k) implies goal.dom()
        .contains(k) && goal[k] == table(after)[k] by {
        assert(has_name(after, k));
        let j = choose|j: int| 0 <= j < after.len() && (#[trigger] after[j]).0 == k;
        assert(table(after)[after[j].0] == after[j].1);
        if j < pairs.len() {
            assert(pairs[j] == after[j]);
            assert(table(pairs)[pairs[j].0] == pairs[j].1);
        }
    }
    assert forall|k: Seq<char>| #[trigger] goal.dom().contains(k) implies table(
        after,
    ).dom().contains(k) by {
        if k == name {
            assert(after[pairs.len() as int].0 == k);
        } else {
            assert(has_name(pairs, k));
            let j = choose|j: int| 0 <= j < pairs.len() && (#[trigger] pairs[j]).0 == k;
            assert(after[j].0 == k);
        }
    }
    assert(table(after) =~= goal);
}

/// A new string for the name of the pair at `i` is a new string for that
/// name in the table.
pub proof fn lemma_table_update(
    pairs: Seq<(Seq<char>, Seq<char>)>,
    i: int,
    name: Seq<char>,
    value: Seq<char>,
)
    requires
        distinct_names(pairs),
        0 <= i < pairs.len(),
        pairs[i].0 == name,
    ensures
        distinct_names(pairs.update(i, (name, value))),
        table(pairs.update(i, (name, value))) == table(pairs).insert(name, value),
{
    let after = pairs.update(i, (name, value));
    assert forall|a: int, b: int| 0 <= a < b < after.len() implies (#[trigger] after[a]).0 != (
    #[trigger] after[b]).0 by {
        assert(after[a].0 == pairs[a].0);
        assert(after[b].0 == pairs[b].0);
    }
    lemma_table_listing(pairs);
    lemma_table_listing(after);
    let goal = table(pairs).insert(name, value);
    assert forall|k: Seq<char>| #[trigger] table(after).dom().contains(k) implies goal.dom()
        .contains(k) && goal[k] == table(after)[k] by {
        assert(has_name(after, k));
        let j = choose|j: int| 0 <= j < after.len() && (#[trigger] after[j]).0 == k;
        assert(pairs[j].0 == k);
        assert(table(after)[after[j].0] == after[j].1);
        if j < i {
            assert(pairs[j].0 != pairs[i].0);
            assert(table(pairs)[pairs[j].0] == pairs[j].1);
        } else if j > i {
            assert(pairs[i].0 != pairs[j].0);
            assert(table(pairs)[pairs[j].0] == pairs[j].1);
        }
    }
    assert forall|k: Seq<char>| #[trigger] goal.dom().contains(k) implies table(
        after,
    ).dom().contains(k) by {
        if k == name {
            assert(after[i].0 == k);
        } else {
            assert(has_name(pairs, k));
            let j = choose|j: int| 0 <= j < pairs.len() && (#[trigger] pairs[j]).0 == k;
            assert(after[j].0 == k);
        }
    }
    assert(table(after) =~= goal);
}

/// Without the pair at `i` the table is without that pair's name.
pub proof fn lemma_table_remove(pairs: Seq<(Seq<char>, Seq<char>)>, i: int)
    requires
        distinct_names(pairs),
        0 <= i < pairs.len(),
    ensures
        distinct_names(pairs.remove(i)),
        table(pairs.remove(i)) == table(pairs).remove(pairs[i].0),
{
    let after = pairs.remove(i);
    assert forall|a: int| 0 <= a < after.len() implies #[trigger] after[a] == pairs[if a < i {
        a
    } else {
        a + 1
    }] by {}
    assert forall|a: int, b: int| 0 <= a < b < after.len() implies (#[trigger] after[a]).0 != (
    #[trigger] after[b]).0 by {
        let a0 = if a < i { a } else { a + 1 };
        let b0 = if b < i { b } else { b + 1 };
        assert(after[a] == pairs[a0]);
        assert(after[b] == pairs[b0]);
    }
    lemma_table_listing(pairs);
    lemma_table_listing(after);
    let goal = table(pairs).remove(pairs[i].0);
    assert forall|k: Seq<char>| #[trigger] table(after).dom().contains(k) implies goal.dom()
        .contains(k) && goal[k] == table(after)[k] by {
        assert(has_name(after, k));
        let j = choose|j: int| 0 <= j < after.len() && (#[trigger] after[j]).0 == k;
        let j0 = if j < i { j } else { j + 1 };
        assert(after[j] == pairs[j0]);
        assert(table(after)[after[j].0] == after[j].1);
        assert(table(pairs)[pairs[j0].0] == pairs[j0].1);
        if j0 < i {
            assert(pairs[j0].0 != pairs[i].0);
        } else {
            assert(pairs[i].0 != pairs[j0].0);
        }
    }
    assert forall|k: Seq<char>| #[trigger] goal.dom().contains(k) implies table(
        after,
    ).dom().contains(k) by {
        assert(has_name(pairs, k));
        let j = choose|j: int| 0 <= j < pairs.len() && (#[trigger] pairs[j]).0 == k;
        let j1 = if j < i { j } else { j - 1 };
        assert(after[j1] == pairs[j]);
    }
    assert(table(after) =~= goal);
}

/// The first `i + 1` of pairs with distinct names make the table of the
/// first `i`, with the pair at `i` added.
pub proof fn lemma_table_take(pairs: Seq<(Seq<char>, Seq<char>)>, i: int)
    requires
        distinct_names(pairs),
        0 <= i < pairs.len(),
    ensures
        table(pairs.take(i + 1)) == table(pairs.take(i)).insert(pairs[i].0, pairs[i].1),
{
    let done = pairs.take(i);
    assert forall|a: int, b: int| 0 <= a < b < done.len() implies (#[trigger] done[a]).0 != (
    #[trigger] done[b]).0 by {
        assert(done[a] == pairs[a] && done[b] == pairs[b]);
    }
    if has_name(done, pairs[i].0) {
        let j = choose|j: int| 0 <= j < done.len() && (#[trigger] done[j]).0 == pairs[i].0;
        assert(done[j] == pairs[j]);
        assert(pairs[j].0 != pairs[i].0);
    }
    lemma_table_push(done, pairs[i].0, pairs[i].1);
    assert(pairs.take(i + 1) =~= done.push(pairs[i]));
}

} // verus!
