//! Seeds the type database. Only the primitive types exist today; user-defined
//! types (struct, union, flags) would be collected here.

use vstd::prelude::*;

use crate::magic::hir::Hir;

verus! {

/// Register every type the schema's fields may refer to.
pub fn collect_types(hir: &mut Hir)
    requires
        old(hir).types.entries@.len() == 0,
    ensures
        final(hir).defs@ == old(hir).defs@,
        crate::magic::hir::primitives_ok(final(hir).types),
{
    hir.types.insert_primitives();
}

} // verus!
