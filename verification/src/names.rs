//! Tables from names to values, in the order in which the names were
//! entered.

use vstd::prelude::*;

verus! {

/// The value that a table gives for a name: that of the entry entered
/// last under the name.
pub open spec fn lookup<V>(table: Seq<(Seq<char>, V)>, name: Seq<char>) -> Option<V>
    decreases table.len(),
{
    if table.len() == 0 {
        None
    } else if table.last().0 == name {
        Some(table.last().1)
    } else {
        lookup(table.drop_last(), name)
    }
}

/// True when both texts are the same.
pub fn same_text(a: &str, b: &str) -> (r: bool)
    ensures
        r == (a@ == b@),
{
    let x: String = a.to_owned();
    let y: String = b.to_owned();
    x == y
}

#[derive(Debug)]
struct Entry<V> {
    name: String,
    value: V,
}

/// A table from names to values. A name entered again hides the earlier
/// entry.
#[derive(Debug)]
pub struct NameTable<V> {
    entries: Vec<Entry<V>>,
}

impl<V> View for NameTable<V> {
    type V = Seq<(Seq<char>, V)>;

    closed spec fn view(&self) -> Seq<(Seq<char>, V)> {
        Seq::new(self.entries@.len(), |i: int| (self.entries@[i].name@, self.entries@[i].value))
    }
}

impl<V> NameTable<V> {
    /// The empty table.
    pub fn new() -> (t: Self)
        ensures
            t@ == Seq::<(Seq<char>, V)>::empty(),
    {
        let t = NameTable { entries: Vec::new() };
        assert(t@ =~= Seq::<(Seq<char>, V)>::empty());
        t
    }

    /// The number of entries, hidden ones included.
    pub fn len(&self) -> (n: usize)
        ensures
            n == self@.len(),
    {
        self.entries.len()
    }

    /// Enters `value` under `name`.
    pub fn insert(&mut self, name: String, value: V)
        ensures
            final(self)@ == old(self)@.push((name@, value)),
    {
        self.entries.push(Entry { name, value });
        assert(self@ =~= old(self)@.push((name@, value)));
    }

    /// The value entered last under `name`.
    pub fn get(&self, name: &str) -> (r: Option<&V>)
        ensures
            match r {
                Some(v) => lookup(self@, name@) == Some(*v),
                None => lookup(self@, name@) is None,
            },
    {
        let mut i: usize = self.entries.len();
        assert(self@.take(i as int) =~= self@);
        while i > 0
            invariant
                i <= self.entries@.len(),
                lookup(self@, name@) == lookup(self@.take(i as int), name@),
            decreases i,
        {
            let ghost prefix = self@.take(i as int);
            assert(prefix.last() == self@[i - 1]);
            assert(prefix.drop_last() =~= self@.take(i - 1));
            if same_text(self.entries[i - 1].name.as_str(), name) {
                return Some(&self.entries[i - 1].value);
            }
            i = i - 1;
        }
        None
    }

    /// True when an entry stands under `name`.
    pub fn contains(&self, name: &str) -> (r: bool)
        ensures
            r == lookup(self@, name@).is_some(),
    {
        self.get(name).is_some()
    }

    /// The name and the value of the entry at `i`.
    pub fn entry(&self, i: usize) -> (r: (&String, &V))
        requires
            i < self@.len(),
        ensures
            r.0@ == self@[i as int].0,
            *r.1 == self@[i as int].1,
    {
        (&self.entries[i].name, &self.entries[i].value)
    }
}

} // verus!
