//! A table from names to colours.

use vstd::prelude::*;
use crate::chars::{text_matches, to_chars};

verus! {

/// The mapping that a list of `(name, colour)` entries stands for.  A later
/// entry takes precedence over an earlier one with the same name.
pub open spec fn table_of(entries: Seq<(String, String)>) -> Map<Seq<char>, Seq<char>>
    decreases entries.len(),
{
    if entries.len() == 0 {
        Map::empty()
    } else {
        table_of(entries.drop_last()).insert(entries.last().0@, entries.last().1@)
    }
}

/// A name that no entry from `from` onwards carries.
spec fn absent_from(entries: Seq<(String, String)>, from: int, name: Seq<char>) -> bool {
    forall|j: int| from <= j < entries.len() ==> (#[trigger] entries[j]).0@ != name
}

/// A name that no entry carries is not bound.
proof fn lemma_table_absent(entries: Seq<(String, String)>, name: Seq<char>)
    requires
        absent_from(entries, 0, name),
    ensures
        !table_of(entries).contains_key(name),
    decreases entries.len(),
{
    if entries.len() > 0 {
        let front = entries.drop_last();
        assert forall|j: int| 0 <= j < front.len() implies (#[trigger] front[j]).0@ != name by {
            assert(front[j] == entries[j]);
        }
        lemma_table_absent(front, name);
    }
}

/// A name is bound to the colour of the last entry that carries it.
proof fn lemma_table_last_match(entries: Seq<(String, String)>, at: int, name: Seq<char>)
    requires
        0 <= at < entries.len(),
        entries[at].0@ == name,
        absent_from(entries, at + 1, name),
    ensures
        table_of(entries).contains_key(name),
        table_of(entries)[name] == entries[at].1@,
    decreases entries.len(),
{
    if at < entries.len() - 1 {
        let front = entries.drop_last();
        assert forall|j: int| at + 1 <= j < front.len() implies (#[trigger] front[j]).0@ != name by {
            assert(front[j] == entries[j]);
        }
        assert(front[at] == entries[at]);
        lemma_table_last_match(front, at, name);
    }
}

/// Replacing the last entry that carries a name binds the name anew and
/// changes nothing else.
proof fn lemma_table_replace(
    entries: Seq<(String, String)>,
    at: int,
    entry: (String, String),
)
    requires
        0 <= at < entries.len(),
        entries[at].0@ == entry.0@,
        absent_from(entries, at + 1, entry.0@),
    ensures
        table_of(entries.update(at, entry)) == table_of(entries).insert(entry.0@, entry.1@),
    decreases entries.len(),
{
    let changed = entries.update(at, entry);
    let front = entries.drop_last();
    if at == entries.len() - 1 {
        assert(changed.drop_last() == front);
        assert(table_of(changed) == table_of(front).insert(entry.0@, entry.1@));
        assert(table_of(entries).insert(entry.0@, entry.1@) == table_of(front).insert(
            entry.0@,
            entry.1@,
        ));
    } else {
        let last = entries.last();
        assert(changed.drop_last() == front.update(at, entry));
        assert(changed.last() == last);
        assert forall|j: int| at + 1 <= j < front.len() implies (#[trigger] front[j]).0@
            != entry.0@ by {
            assert(front[j] == entries[j]);
        }
        assert(front[at] == entries[at]);
        lemma_table_replace(front, at, entry);
        assert(last.0@ != entry.0@);
        assert(table_of(front).insert(entry.0@, entry.1@).insert(last.0@, last.1@) == table_of(
            front,
        ).insert(last.0@, last.1@).insert(entry.0@, entry.1@));
    }
}

/// Two lists that agree entry by entry, as character sequences, stand for
/// the same mapping.
proof fn lemma_table_same(a: Seq<(String, String)>, b: Seq<(String, String)>)
    requires
        a.len() == b.len(),
        forall|i: int| 0 <= i < a.len() ==> a[i].0@ == b[i].0@ && a[i].1@ == b[i].1@,
    ensures
        table_of(a) == table_of(b),
    decreases a.len(),
{
    if a.len() > 0 {
        lemma_table_same(a.drop_last(), b.drop_last());
    }
}

/// The name of every entry is bound.
proof fn lemma_table_present(entries: Seq<(String, String)>, at: int)
    requires
        0 <= at < entries.len(),
    ensures
        table_of(entries).contains_key(entries[at].0@),
    decreases entries.len(),
{
    if at < entries.len() - 1 {
        let front = entries.drop_last();
        assert(front[at] == entries[at]);
        lemma_table_present(front, at);
    }
}

/// A bound name is carried by one of the entries.
proof fn lemma_table_source(entries: Seq<(String, String)>, name: Seq<char>)
    requires
        table_of(entries).contains_key(name),
    ensures
        exists|i: int| 0 <= i < entries.len() && (#[trigger] entries[i]).0@ == name,
    decreases entries.len(),
{
    if entries.len() > 0 && entries.last().0@ != name {
        let front = entries.drop_last();
        lemma_table_source(front, name);
        let i = choose|i: int| 0 <= i < front.len() && (#[trigger] front[i]).0@ == name;
        assert(entries[i] == front[i]);
    } else {
        assert(entries.len() > 0);
        assert(entries[entries.len() - 1].0@ == name);
    }
}

/// A table from token-class names to colour strings.  Two tables are equal
/// if they bind the same names to the same colours.
#[derive(Debug, Clone)]
pub struct ColorTable {
    entries: Vec<(String, String)>,
}

impl View for ColorTable {
    type V = Map<Seq<char>, Seq<char>>;

    closed spec fn view(&self) -> Map<Seq<char>, Seq<char>> {
        table_of(self.entries@)
    }
}

impl PartialEq for ColorTable {
    fn eq(&self, other: &ColorTable) -> (same: bool) {
        let same = self.within(other) && other.within(self);
        proof {
            if same {
                assert(self@ =~= other@);
            }
        }
        same
    }
}

impl vstd::std_specs::cmp::PartialEqSpecImpl for ColorTable {
    open spec fn obeys_eq_spec() -> bool {
        true
    }

    open spec fn eq_spec(&self, other: &ColorTable) -> bool {
        self@ == other@
    }
}

impl ColorTable {
    /// Whether `other` binds every name that this table binds, and to the
    /// same colour.
    fn within(&self, other: &ColorTable) -> (all: bool)
        ensures
            all == forall|name: Seq<char>| #[trigger]
                self@.contains_key(name) ==> other@.contains_key(name) && other@[name]
                    == self@[name],
    {
        let mut i: usize = 0;
        while i < self.entries.len()
            invariant
                i <= self.entries.len(),
                forall|j: int|
                    0 <= j < i ==> other@.contains_key((#[trigger] self.entries@[j]).0@)
                        && other@[self.entries@[j].0@] == self@[self.entries@[j].0@],
            decreases self.entries.len() - i,
        {
            let name = self.entries[i].0.as_str();
            let ours = self.get(name);
            let theirs = other.get(name);
            proof {
                lemma_table_present(self.entries@, i as int);
            }
            match (ours, theirs) {
                (Some(a), Some(b)) => {
                    if !text_matches(a.as_str(), &to_chars(b.as_str())) {
                        return false;
                    }
                },
                _ => {
                    return false;
                },
            }
            i += 1;
        }
        proof {
            assert forall|name: Seq<char>| #[trigger] self@.contains_key(name) implies other@.contains_key(
                name,
            ) && other@[name] == self@[name] by {
                lemma_table_source(self.entries@, name);
            }
        }
        true
    }

    /// An empty table.
    pub fn new() -> (table: ColorTable)
        ensures
            table@ == Map::<Seq<char>, Seq<char>>::empty(),
    {
        ColorTable { entries: Vec::new() }
    }

    /// The position of the last entry named `name`, if there is one.
    fn position(&self, name: &str) -> (found: Option<usize>)
        ensures
            match found {
                Some(at) => at < self.entries@.len() && self.entries@[at as int].0@ == name@
                    && absent_from(self.entries@, at + 1, name@),
                None => absent_from(self.entries@, 0, name@),
            },
    {
        let wanted = to_chars(name);
        let mut i: usize = self.entries.len();
        while i > 0
            invariant
                i <= self.entries.len(),
                wanted@ == name@,
                absent_from(self.entries@, i as int, name@),
            decreases i,
        {
            i -= 1;
            if text_matches(self.entries[i].0.as_str(), &wanted) {
                return Some(i);
            }
        }
        None
    }

    /// Binds `name` to `color`, replacing any colour bound to it before.
    pub fn insert(&mut self, name: String, color: String)
        ensures
            final(self)@ == old(self)@.insert(name@, color@),
    {
        match self.position(name.as_str()) {
            Some(at) => {
                proof {
                    lemma_table_replace(self.entries@, at as int, (name, color));
                }
                self.entries.set(at, (name, color));
            },
            None => {
                proof {
                    assert(self.entries@.push((name, color)).drop_last() == self.entries@);
                }
                self.entries.push((name, color));
            },
        }
    }

    /// The table's bindings as a list of `(name, colour)` pairs, which stands
    /// for the same mapping.
    pub fn pairs(&self) -> (pairs: Vec<(String, String)>)
        ensures
            table_of(pairs@) == self@,
    {
        let mut pairs: Vec<(String, String)> = Vec::new();
        let mut i: usize = 0;
        while i < self.entries.len()
            invariant
                i <= self.entries.len(),
                pairs@.len() == i,
                forall|j: int|
                    0 <= j < i ==> pairs@[j].0@ == self.entries@[j].0@ && pairs@[j].1@
                        == self.entries@[j].1@,
            decreases self.entries.len() - i,
        {
            pairs.push((self.entries[i].0.clone(), self.entries[i].1.clone()));
            i += 1;
        }
        proof {
            lemma_table_same(pairs@, self.entries@);
        }
        pairs
    }

    /// The colour bound to `name`, if any.
    pub fn get(&self, name: &str) -> (color: Option<&String>)
        ensures
            match color {
                Some(c) => self@.contains_key(name@) && c@ == self@[name@],
                None => !self@.contains_key(name@),
            },
    {
        match self.position(name) {
            Some(at) => {
                proof {
                    lemma_table_last_match(self.entries@, at as int, name@);
                }
                Some(&self.entries[at].1)
            },
            None => {
                proof {
                    lemma_table_absent(self.entries@, name@);
                }
                None
            },
        }
    }
}

} // verus!
