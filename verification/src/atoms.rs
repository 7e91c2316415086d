//! The atom table: an append-only interning table mapping textual names to
//! stable 1-based integer ids.  Ids are dense, assigned in insertion order,
//! and never change for the lifetime of a compilation.

use vstd::prelude::*;

verus! {

/// All names differ pairwise.
pub open spec fn names_distinct(names: Seq<Seq<char>>) -> bool {
    forall|i: int, j: int| 0 <= i < j < names.len() ==> names[i] != names[j]
}

/// Index of the first occurrence of `name` among `names`.
pub open spec fn spec_find_name(names: Seq<Seq<char>>, name: Seq<char>) -> Option<int>
    decreases names.len(),
{
    if names.len() == 0 {
        None
    } else if names[0] == name {
        Some(0)
    } else {
        match spec_find_name(names.drop_first(), name) {
            Some(i) => Some(i + 1),
            None => None,
        }
    }
}

/// What [`spec_find_name`] returns: the first index holding `name`, or
/// nothing when `name` does not occur.
pub proof fn lemma_find_name(names: Seq<Seq<char>>, name: Seq<char>)
    ensures
        match spec_find_name(names, name) {
            Some(i) => 0 <= i < names.len() && names[i] == name && forall|j: int|
                0 <= j < i ==> names[j] != name,
            None => forall|j: int| 0 <= j < names.len() ==> names[j] != name,
        },
    decreases names.len(),
{
    if names.len() > 0 && names[0] != name {
        let rest = names.drop_first();
        lemma_find_name(rest, name);
        assert(forall|j: int| 0 <= j < rest.len() ==> rest[j] == names[j + 1]);
        match spec_find_name(rest, name) {
            Some(k) => {
                assert(names[k + 1] == name);
                assert forall|j: int| 0 <= j < k + 1 implies names[j] != name by {
                    if j > 0 {
                        assert(rest[j - 1] != name);
                    }
                }
            },
            None => {
                assert forall|j: int| 0 <= j < names.len() implies names[j] != name by {
                    if j > 0 {
                        assert(rest[j - 1] != name);
                    }
                }
            },
        }
    }
}

/// The id that interning `name` into `names` yields: the 1-based position of
/// its first occurrence, or one past the table when it is new.
pub open spec fn spec_get_id(names: Seq<Seq<char>>, name: Seq<char>) -> int {
    match spec_find_name(names, name) {
        Some(i) => i + 1,
        None => names.len() as int + 1,
    }
}

/// The table after interning `name`: unchanged when present, else extended.
pub open spec fn spec_intern(names: Seq<Seq<char>>, name: Seq<char>) -> Seq<Seq<char>> {
    if spec_find_name(names, name) is Some {
        names
    } else {
        names.push(name)
    }
}

/// Interning resolves ids into the resulting table.
pub proof fn lemma_intern_resolves(names: Seq<Seq<char>>, name: Seq<char>)
    ensures
        1 <= spec_get_id(names, name) <= spec_intern(names, name).len(),
        spec_intern(names, name)[spec_get_id(names, name) - 1] == name,
        names.is_prefix_of(spec_intern(names, name)),
        spec_intern(names, name).len() <= names.len() + 1,
{
    lemma_find_name(names, name);
    assert(names.is_prefix_of(spec_intern(names, name)));
}

/// Interning keeps distinctness: a new name is appended only when absent.
pub proof fn lemma_intern_distinct(names: Seq<Seq<char>>, name: Seq<char>)
    requires
        names_distinct(names),
    ensures
        names_distinct(spec_intern(names, name)),
{
    lemma_find_name(names, name);
}

/// Extending the table does not move existing names: the id of a name that
/// already occurs is the same in any extension.
pub proof fn lemma_find_name_extend(names: Seq<Seq<char>>, ext: Seq<Seq<char>>, name: Seq<char>)
    requires
        names.is_prefix_of(ext),
        spec_find_name(names, name) is Some,
    ensures
        spec_find_name(ext, name) == spec_find_name(names, name),
        spec_get_id(ext, name) == spec_get_id(names, name),
    decreases names.len(),
{
    if names.len() > 0 && names[0] != name {
        assert(names.drop_first().is_prefix_of(ext.drop_first()));
        lemma_find_name_extend(names.drop_first(), ext.drop_first(), name);
    }
}

/// In a distinct table the id of the name at position `i` is exactly
/// `i + 1`: interning is a bijection between the stored names and the ids
/// `1..=n`, and distinct names always receive distinct ids.
pub proof fn lemma_atom_ids_bijective(names: Seq<Seq<char>>, i: int)
    requires
        names_distinct(names),
        0 <= i < names.len(),
    ensures
        spec_get_id(names, names[i]) == i + 1,
    decreases i,
{
    lemma_find_name(names, names[i]);
    match spec_find_name(names, names[i]) {
        Some(k) => {
            assert(names[k] == names[i]);
            if k < i {
                assert(false);
            } else if i < k {
                assert(false);
            }
        },
        None => {
            assert(names[i] == names[i]);
            assert(false);
        },
    }
}

/// An append-only 1-indexed interning table of textual names.
pub struct Atoms {
    names: Vec<String>,
}

impl View for Atoms {
    type V = Seq<Seq<char>>;

    closed spec fn view(&self) -> Seq<Seq<char>> {
        self.names.deep_view()
    }
}

impl Default for Atoms {
    /// An empty table.
    fn default() -> (r: Self)
        ensures
            r@ == Seq::<Seq<char>>::empty(),
    {
        let r = Atoms { names: Vec::new() };
        proof {
            assert(r@ =~= Seq::<Seq<char>>::empty());
        }
        r
    }
}

impl Atoms {
    /// The number of interned names.
    pub fn len(&self) -> (n: usize)
        ensures
            n == self@.len(),
    {
        self.names.len()
    }

    /// The name stored at 0-based position `i`.
    pub fn name_at(&self, i: usize) -> (s: &String)
        requires
            i < self@.len(),
        ensures
            s@ == self@[i as int],
    {
        &self.names[i]
    }

    /// Returns the 1-based id of `needle`, appending it first when it is not
    /// yet present.  Equal names always receive equal ids, and a table built
    /// solely through this operation holds pairwise distinct names, so
    /// distinct names receive distinct ids.
    pub fn get_id(&mut self, needle: &str) -> (id: u32)
        requires
            old(self)@.len() < u32::MAX,
        ensures
            id == spec_get_id(old(self)@, needle@),
            final(self)@ == spec_intern(old(self)@, needle@),
            names_distinct(old(self)@) ==> names_distinct(final(self)@),
    {
        proof {
            lemma_find_name(old(self)@, needle@);
            if names_distinct(old(self)@) {
                lemma_intern_distinct(old(self)@, needle@);
            }
        }
        let needle_string = needle.to_owned();
        let n = self.names.len();
        let mut i: usize = 0;
        while i < n
            invariant
                *self == *old(self),
                n == self@.len() < u32::MAX,
                needle_string@ == needle@,
                0 <= i <= n,
                forall|j: int| 0 <= j < i ==> self@[j] != needle@,
            decreases n - i,
        {
            if self.names[i] == needle_string {
                proof {
                    assert(self@[i as int] == needle@);
                    lemma_find_name(old(self)@, needle@);
                    match spec_find_name(old(self)@, needle@) {
                        Some(k) => {
                            if k < i {
                                assert(self@[k] == needle@);
                            } else if i < k {
                                assert(self@[i as int] != needle@);
                            }
                        },
                        None => {
                            assert(self@[i as int] != needle@);
                        },
                    }
                    assert(spec_find_name(old(self)@, needle@) == Some(i as int));
                }
                return (i + 1) as u32;
            }
            i += 1;
        }
        proof {
            assert(spec_find_name(old(self)@, needle@) is None);
        }
        self.names.push(needle_string);
        proof {
            assert(self@ =~= spec_intern(old(self)@, needle@));
        }
        (self.names.len()) as u32
    }
}

} // verus!
