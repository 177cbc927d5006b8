//! High-level schema representation.

pub mod lower;
pub mod ty_collect;
mod ty_db;

use vstd::prelude::*;

use crate::magic::ty::{PrimitiveTy, Ty};
pub use ty_db::TyDb;

verus! {

/// High-level schema: the syscall definitions and the type database.
pub struct Hir {
    pub defs: Vec<ItemDef>,
    pub types: TyDb,
}

pub enum ItemDef {
    Syscall(SyscallDef),
}

#[derive(Debug, Clone, Copy, PartialEq, Eq, Structural)]
pub struct SyscallId(pub u32);

/// Which of the two syscall-stops of a call are surfaced as events.
#[derive(Debug, Clone, Copy, PartialEq, Eq, Structural)]
pub struct SyscallAnalyzeStrategy {
    pub on_enter: bool,
    pub on_exit: bool,
}

pub struct SyscallDef {
    pub id: SyscallId,
    pub name: String,
    pub body: DefBody,
    pub strategy: SyscallAnalyzeStrategy,
}

pub struct DefBody {
    pub fields: Vec<FieldDef>,
}

pub struct FieldTypeInfo {
    pub ty_name: String,
    /// For `buf` fields: path to the sibling holding the buffer's length.
    pub len_ref: Vec<String>,
}

pub struct FieldDef {
    pub name: String,
    pub ty_info: FieldTypeInfo,
}

/// The definition held by an item.
pub open spec fn def_of(item: ItemDef) -> SyscallDef {
    match item {
        ItemDef::Syscall(d) => d,
    }
}

/// The first definition with the given id, if any.
pub open spec fn lookup_spec(defs: Seq<ItemDef>, id: u32) -> Option<SyscallDef>
    decreases defs.len(),
{
    if defs.len() == 0 {
        None
    } else if def_of(defs[0]).id.0 == id {
        Some(def_of(defs[0]))
    } else {
        lookup_spec(defs.drop_first(), id)
    }
}

proof fn lemma_lookup_spec_skip(defs: Seq<ItemDef>, id: u32, i: int)
    requires
        0 <= i <= defs.len(),
        forall|j: int| 0 <= j < i ==> def_of(defs[j]).id.0 != id,
    ensures
        lookup_spec(defs, id) == lookup_spec(defs.skip(i), id),
    decreases i,
{
    if i > 0 {
        assert(defs.skip(i - 1).drop_first() =~= defs.skip(i));
        assert(defs.skip(i - 1)[0] == defs[i - 1]);
        lemma_lookup_spec_skip(defs, id, i - 1);
    } else {
        assert(defs.skip(0) =~= defs);
    }
}

/// A definition the lookup yields is one of the schema's definitions.
pub proof fn lemma_lookup_spec_in(defs: Seq<ItemDef>, id: u32)
    ensures
        lookup_spec(defs, id) matches Some(d) ==> exists|i: int|
            0 <= i < defs.len() && def_of(#[trigger] defs[i]) == d && d.id.0 == id,
    decreases defs.len(),
{
    if defs.len() > 0 && def_of(defs[0]).id.0 != id {
        lemma_lookup_spec_in(defs.drop_first(), id);
        match lookup_spec(defs, id) {
            Some(d) => {
                let i = choose|i: int|
                    0 <= i < defs.drop_first().len() && def_of(#[trigger] defs.drop_first()[i]) == d
                        && d.id.0 == id;
                assert(defs[i + 1] == defs.drop_first()[i]);
                assert(def_of(defs[i + 1]) == d);
            },
            None => {},
        }
    }
}

/// A well-formed syscall definition: it has a return field, at most six
/// parameters, at least one side of its strategy set, and every field's type
/// name resolvable in `types`.
pub open spec fn def_wf(types: TyDb, d: SyscallDef) -> bool {
    &&& 1 <= d.body.fields@.len() <= 7
    &&& (d.strategy.on_enter || d.strategy.on_exit)
    &&& forall|j: int|
        0 <= j < d.body.fields@.len() ==> types.contains_name(
            #[trigger] d.body.fields@[j].ty_info.ty_name@,
        )
}

/// The exact seeding of the type database: each of the six primitive names is
/// bound to its primitive type, and nothing else is registered.
pub open spec fn primitives_ok(types: TyDb) -> bool {
    &&& types.contains_name("fd"@) && types.ty_of("fd"@) == Ty::Primitive(PrimitiveTy::Fd)
    &&& types.contains_name("zstring"@) && types.ty_of("zstring"@) == Ty::Primitive(
        PrimitiveTy::ZString,
    )
    &&& types.contains_name("num"@) && types.ty_of("num"@) == Ty::Primitive(PrimitiveTy::Number)
    &&& types.contains_name("buf"@) && types.ty_of("buf"@) == Ty::Primitive(PrimitiveTy::Buffer)
    &&& types.contains_name("signal"@) && types.ty_of("signal"@) == Ty::Primitive(
        PrimitiveTy::Signal,
    )
    &&& types.contains_name("address"@) && types.ty_of("address"@) == Ty::Primitive(
        PrimitiveTy::Address,
    )
    &&& forall|n: Seq<char>|
        #[trigger] types.contains_name(n) ==> n == "fd"@ || n == "zstring"@ || n == "num"@ || n
            == "buf"@ || n == "signal"@ || n == "address"@
}

/// A well-formed schema: the six primitives are registered and every
/// definition is well-formed.
pub open spec fn schema_wf(h: Hir) -> bool {
    &&& h.types.contains_name("fd"@)
    &&& h.types.contains_name("zstring"@)
    &&& h.types.contains_name("num"@)
    &&& h.types.contains_name("buf"@)
    &&& h.types.contains_name("signal"@)
    &&& h.types.contains_name("address"@)
    &&& forall|i: int| 0 <= i < h.defs@.len() ==> def_wf(h.types, def_of(#[trigger] h.defs@[i]))
}

impl Hir {
    /// The first definition with the given id, if the schema has one.
    pub fn lookup_syscall_by_id(&self, id: SyscallId) -> (r: Option<&SyscallDef>)
        ensures
            match lookup_spec(self.defs@, id.0) {
                Some(d) => r matches Some(rd) && *rd == d,
                None => r is None,
            },
    {
        let n = self.defs.len();
        let mut i: usize = 0;
        while i < n
            invariant
                0 <= i <= n,
                n == self.defs@.len(),
                forall|j: int| 0 <= j < i ==> def_of(#[trigger] self.defs@[j]).id.0 != id.0,
            decreases n - i,
        {
            match &self.defs[i] {
                ItemDef::Syscall(syscall_def) => {
                    if syscall_def.id == id {
                        proof {
                            lemma_lookup_spec_skip(self.defs@, id.0, i as int);
                            assert(self.defs@.skip(i as int)[0] == self.defs@[i as int]);
                        }
                        return Some(syscall_def);
                    }
                },
            }
            i = i + 1;
        }
        proof {
            lemma_lookup_spec_skip(self.defs@, id.0, n as int);
            assert(self.defs@.skip(n as int) =~= Seq::<ItemDef>::empty());
        }
        None
    }

    /// Resolve a type name. The name must be registered: a validated schema
    /// never refers to an unknown type.
    pub fn resolve_ty(&self, name: &str) -> (r: &Ty)
        requires
            self.types.contains_name(name@),
        ensures
            *r == self.types.ty_of(name@),
    {
        self.types.lookup(name)
    }
}

impl SyscallDef {
    /// Number of parameters: one field is the return value, the others are
    /// parameters.
    pub fn params_count(&self) -> (r: usize)
        requires
            self.body.fields@.len() >= 1,
        ensures
            r == self.body.fields@.len() - 1,
    {
        self.body.field_count() - 1
    }

    /// The parameter fields, in positional order.
    pub fn params(&self) -> (r: Vec<&FieldDef>)
        requires
            self.body.fields@.len() >= 1,
        ensures
            r@.len() == self.body.fields@.len() - 1,
            forall|i: int| 0 <= i < r@.len() ==> *r@[i] == self.body.fields@[i],
    {
        let n = self.params_count();
        let mut out: Vec<&FieldDef> = Vec::new();
        let mut i: usize = 0;
        while i < n
            invariant
                0 <= i <= n,
                n == self.body.fields@.len() - 1,
                out@.len() == i,
                forall|j: int| 0 <= j < i ==> *out@[j] == self.body.fields@[j],
            decreases n - i,
        {
            out.push(&self.body.fields[i]);
            i = i + 1;
        }
        out
    }

    /// The return-value field: the last field of the body.
    pub fn ret(&self) -> (r: &FieldDef)
        requires
            self.body.fields@.len() >= 1,
        ensures
            *r == self.body.fields@.last(),
    {
        &self.body.fields[self.body.field_count() - 1]
    }
}

impl DefBody {
    pub fn field_count(&self) -> (r: usize)
        ensures
            r == self.fields@.len(),
    {
        self.fields.len()
    }
}

impl FieldTypeInfo {
    /// The sibling fields this field's evaluation depends on: the head of the
    /// length path, if there is one.
    pub fn deps(&self) -> (r: Vec<String>)
        ensures
            r@.len() == if self.len_ref@.len() == 0 {
                0int
            } else {
                1int
            },
            self.len_ref@.len() > 0 ==> r@[0]@ == self.len_ref@[0]@,
    {
        let mut res: Vec<String> = Vec::new();
        if self.len_ref.len() > 0 {
            res.push(self.len_ref[0].clone());
        }
        res
    }
}

} // verus!
