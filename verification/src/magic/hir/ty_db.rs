//! Type database: maps type names to types.

use vstd::prelude::*;

use crate::magic::ty::{PrimitiveTy, Ty};
use crate::strutil::str_eq;

verus! {

/// Type database. Names are unique: `add` refuses a second entry for a name.
pub struct TyDb {
    pub entries: Vec<(String, Ty)>,
}

/// Index of the first entry for `name`, if any.
pub open spec fn name_index_of(entries: Seq<(String, Ty)>, name: Seq<char>) -> Option<int>
    decreases entries.len(),
{
    if entries.len() == 0 {
        None
    } else if entries[0].0@ == name {
        Some(0)
    } else {
        match name_index_of(entries.drop_first(), name) {
            Some(i) => Some(i + 1),
            None => None,
        }
    }
}

proof fn lemma_name_index_of_props(entries: Seq<(String, Ty)>, name: Seq<char>)
    ensures
        match name_index_of(entries, name) {
            Some(i) => 0 <= i < entries.len() && entries[i].0@ == name && (forall|j: int|
                #![trigger entries[j]]
                0 <= j < i ==> entries[j].0@ != name),
            None => forall|j: int|
                #![trigger entries[j]]
                0 <= j < entries.len() ==> entries[j].0@ != name,
        },
    decreases entries.len(),
{
    if entries.len() > 0 && entries[0].0@ != name {
        let tail = entries.drop_first();
        lemma_name_index_of_props(tail, name);
        match name_index_of(entries, name) {
            Some(i) => {
                assert(entries[i] == tail[i - 1]);
                assert forall|j: int| #![trigger entries[j]] 0 <= j < i implies entries[j].0@
                    != name by {
                    if j >= 1 {
                        assert(entries[j] == tail[j - 1]);
                    }
                }
            },
            None => {
                assert forall|j: int| #![trigger entries[j]] 0 <= j < entries.len() implies
                    entries[j].0@ != name by {
                    if j >= 1 {
                        assert(entries[j] == tail[j - 1]);
                    }
                }
            },
        }
    }
}

proof fn lemma_name_index_of_push(entries: Seq<(String, Ty)>, name: Seq<char>, e: (String, Ty))
    ensures
        name_index_of(entries.push(e), name) == if name_index_of(entries, name) is Some {
            name_index_of(entries, name)
        } else if e.0@ == name {
            Some(entries.len() as int)
        } else {
            None::<int>
        },
    decreases entries.len(),
{
    if entries.len() == 0 {
        assert(entries.push(e).drop_first() =~= Seq::<(String, Ty)>::empty());
        assert(entries.push(e)[0] == e);
        if e.0@ == name {
            assert(name_index_of(entries.push(e), name) == Some(0int));
        } else {
            assert(name_index_of(Seq::<(String, Ty)>::empty(), name) == None::<int>);
            assert(name_index_of(entries.push(e), name) == None::<int>);
        }
    } else {
        assert(entries.push(e)[0] == entries[0]);
        assert(entries.push(e).drop_first() =~= entries.drop_first().push(e));
        lemma_name_index_of_push(entries.drop_first(), name, e);
        if entries[0].0@ == name {
            assert(name_index_of(entries.push(e), name) == Some(0int));
            assert(name_index_of(entries, name) == Some(0int));
        } else {
            assert(name_index_of(entries.push(e), name) == match name_index_of(
                entries.drop_first().push(e),
                name,
            ) {
                Some(i) => Some(i + 1),
                None => None::<int>,
            });
            assert(name_index_of(entries, name) == match name_index_of(
                entries.drop_first(),
                name,
            ) {
                Some(i) => Some(i + 1),
                None => None::<int>,
            });
        }
    }
}

impl TyDb {
    pub open spec fn contains_name(self, name: Seq<char>) -> bool {
        name_index_of(self.entries@, name) is Some
    }

    /// The type registered under `name`.
    pub open spec fn ty_of(self, name: Seq<char>) -> Ty {
        match name_index_of(self.entries@, name) {
            Some(i) => self.entries@[i].1,
            None => Ty::Null,
        }
    }

    /// Register `name`; a name may be registered only once.
    pub fn add(&mut self, name: &str, ty: Ty)
        requires
            !old(self).contains_name(name@),
        ensures
            final(self).contains_name(name@),
            final(self).ty_of(name@) == ty,
            final(self).entries@.len() == old(self).entries@.len() + 1,
            forall|n: Seq<char>|
                n != name@ ==> final(self).contains_name(n) == old(self).contains_name(n)
                    && final(self).ty_of(n) == old(self).ty_of(n),
    {
        let owned: String = name.to_owned();
        let ghost e = (owned, ty);
        let ghost entries0 = self.entries@;
        self.entries.push((owned, ty));
        proof {
            assert(self.entries@ =~= entries0.push(e));
            lemma_name_index_of_push(entries0, name@, e);
            assert forall|n: Seq<char>| n != name@ implies self.contains_name(n) == old(
                self,
            ).contains_name(n) && self.ty_of(n) == old(self).ty_of(n) by {
                lemma_name_index_of_push(entries0, n, e);
                lemma_name_index_of_props(entries0, n);
            }
        }
    }

    /// Whether a name is registered.
    pub fn contains(&self, name: &str) -> (r: bool)
        ensures
            r == self.contains_name(name@),
    {
        proof {
            lemma_name_index_of_props(self.entries@, name@);
        }
        let n = self.entries.len();
        let mut i: usize = 0;
        while i < n
            invariant
                0 <= i <= n,
                n == self.entries@.len(),
                forall|j: int| 0 <= j < i ==> self.entries@[j].0@ != name@,
            decreases n - i,
        {
            if str_eq(self.entries[i].0.as_str(), name) {
                proof {
                    lemma_name_index_of_props(self.entries@, name@);
                }
                return true;
            }
            i = i + 1;
        }
        proof {
            lemma_name_index_of_props(self.entries@, name@);
        }
        false
    }

    /// Look a name up; the name must be registered.
    pub fn lookup(&self, name: &str) -> (r: &Ty)
        requires
            self.contains_name(name@),
        ensures
            *r == self.ty_of(name@),
    {
        let n = self.entries.len();
        let mut i: usize = 0;
        while i < n
            invariant
                0 <= i <= n,
                n == self.entries@.len(),
                self.contains_name(name@),
                forall|j: int| 0 <= j < i ==> self.entries@[j].0@ != name@,
            decreases n - i,
        {
            if str_eq(self.entries[i].0.as_str(), name) {
                proof {
                    lemma_name_index_of_props(self.entries@, name@);
                }
                return &self.entries[i].1;
            }
            i = i + 1;
        }
        proof {
            lemma_name_index_of_props(self.entries@, name@);
            assert(false);
        }
        &self.entries[0].1
    }

    /// Seed the database with the six primitive types.
    pub fn insert_primitives(&mut self)
        requires
            old(self).entries@.len() == 0,
        ensures
            crate::magic::hir::primitives_ok(*final(self)),
    {
        proof {
            reveal_strlit("fd");
            reveal_strlit("zstring");
            reveal_strlit("num");
            reveal_strlit("buf");
            reveal_strlit("signal");
            reveal_strlit("address");
        }
        proof {
            assert("fd"@.len() == 2 && "num"@.len() == 3 && "buf"@.len() == 3 && "signal"@.len()
                == 6 && "zstring"@.len() == 7 && "address"@.len() == 7);
            assert("num"@[0] != "buf"@[0] && "zstring"@[0] != "address"@[0]);
        }
        self.add("fd", Ty::Primitive(PrimitiveTy::Fd));
        self.add("zstring", Ty::Primitive(PrimitiveTy::ZString));
        self.add("num", Ty::Primitive(PrimitiveTy::Number));
        self.add("buf", Ty::Primitive(PrimitiveTy::Buffer));
        self.add("signal", Ty::Primitive(PrimitiveTy::Signal));
        self.add("address", Ty::Primitive(PrimitiveTy::Address));
    }
}

impl Default for TyDb {
    /// An empty database.
    fn default() -> (r: Self)
        ensures
            r.entries@.len() == 0,
    {
        TyDb { entries: Vec::new() }
    }
}

} // verus!
