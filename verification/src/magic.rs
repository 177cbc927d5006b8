//! Schema ("magic") handling: grammar, parse tree, lowering and the type
//! database.

pub mod emit;
pub mod hir;
pub mod parse_tree;
pub mod ty;

use vstd::prelude::*;

pub use hir::lower::MagicError;
pub use hir::Hir as Magic;

use hir::lower::{first_lower_err, lower, lowered_def_ok};
use parse_tree::{parse, parse_spec, SpecDef, SpecField};

verus! {

/// A type name the seeded type database knows.
pub open spec fn is_primitive_name(n: Seq<char>) -> bool {
    n == "fd"@ || n == "zstring"@ || n == "num"@ || n == "buf"@ || n == "signal"@ || n == "address"@
}

/// The first unknown type name among a definition's fields, as an error.
pub open spec fn first_unknown_ty(fields: Seq<SpecField>) -> Option<MagicError>
    decreases fields.len(),
{
    if fields.len() == 0 {
        None
    } else if !is_primitive_name(fields[0].ty) {
        Some(MagicError::UnknownType)
    } else {
        first_unknown_ty(fields.drop_first())
    }
}

/// The validation error of one definition: a body without a return field or
/// with more than six parameters first, then unknown type names in order.
pub open spec fn validate_def_err(sd: SpecDef) -> Option<MagicError> {
    if !(1 <= sd.fields.len() <= 7) {
        Some(MagicError::BadArity)
    } else {
        first_unknown_ty(sd.fields)
    }
}

/// The first validation error over all definitions.
pub open spec fn first_validate_err(ds: Seq<SpecDef>) -> Option<MagicError>
    decreases ds.len(),
{
    if ds.len() == 0 {
        None
    } else {
        match validate_def_err(ds[0]) {
            Some(e) => Some(e),
            None => first_validate_err(ds.drop_first()),
        }
    }
}

/// The error loading a schema text reports, if any: a grammar mismatch, then
/// the first lowering error, then the first validation error.
pub open spec fn init_err(s: Seq<char>) -> Option<MagicError> {
    match parse_spec(s) {
        None => Some(MagicError::Syntax),
        Some(ds) => match first_lower_err(ds) {
            Some(e) => Some(e),
            None => first_validate_err(ds),
        },
    }
}

/// What a successfully loaded schema holds: one definition per parsed
/// definition, each lowered from it.
pub open spec fn loaded_ok(ds: Seq<SpecDef>, h: Magic) -> bool {
    &&& h.defs@.len() == ds.len()
    &&& forall|i: int| 0 <= i < ds.len() ==> lowered_def_ok(ds[i], hir::def_of(#[trigger] h.defs@[i]))
}

proof fn lemma_first_validate_err_skip(ds: Seq<SpecDef>, i: int)
    requires
        0 <= i <= ds.len(),
        forall|j: int| 0 <= j < i ==> validate_def_err(#[trigger] ds[j]) is None,
    ensures
        first_validate_err(ds) == first_validate_err(ds.skip(i)),
    decreases i,
{
    if i > 0 {
        assert(ds.skip(i - 1).drop_first() =~= ds.skip(i));
        assert(ds.skip(i - 1)[0] == ds[i - 1]);
        lemma_first_validate_err_skip(ds, i - 1);
    } else {
        assert(ds.skip(0) =~= ds);
    }
}

proof fn lemma_first_unknown_ty_skip(fields: Seq<SpecField>, i: int)
    requires
        0 <= i <= fields.len(),
        forall|j: int| 0 <= j < i ==> is_primitive_name(#[trigger] fields[j].ty),
    ensures
        first_unknown_ty(fields) == first_unknown_ty(fields.skip(i)),
    decreases i,
{
    if i > 0 {
        assert(fields.skip(i - 1).drop_first() =~= fields.skip(i));
        assert(fields.skip(i - 1)[0] == fields[i - 1]);
        lemma_first_unknown_ty_skip(fields, i - 1);
    } else {
        assert(fields.skip(0) =~= fields);
    }
}

/// Load a schema text: parse it, lower it, seed the type database, and check
/// that every definition has a return field and at most six parameters and
/// that every field's type name is known. Any failure is fatal to the load.
pub fn init(s: &str) -> (r: Result<Magic, MagicError>)
    ensures
        match init_err(s@) {
            Some(e) => r == Err::<Magic, MagicError>(e),
            None => r matches Ok(h) && hir::schema_wf(h) && hir::primitives_ok(h.types)
                && emit::loadable(h) && (parse_spec(s@) matches Some(ds) && loaded_ok(ds, h)),
        },
{
    let pt = match parse(s) {
        Some(pt) => pt,
        None => {
            return Err(MagicError::Syntax);
        },
    };
    let ghost ds = match parse_spec(s@) {
        Some(x) => x,
        None => Seq::empty(),
    };
    let mut h = match lower(&pt) {
        Ok(h) => h,
        Err(e) => {
            return Err(e);
        },
    };
    proof {
        assert(parse_tree::input_view(pt) == ds);
    }
    hir::ty_collect::collect_types(&mut h);
    // validate: arity and type names are startup-fatal
    let ndefs = h.defs.len();
    let mut i: usize = 0;
    while i < ndefs
        invariant
            0 <= i <= ndefs,
            ndefs == h.defs@.len(),
            ndefs == ds.len(),
            parse_spec(s@) == Some(ds),
            first_lower_err(ds) is None,
            hir::primitives_ok(h.types),
            forall|j: int| 0 <= j < ndefs ==> lowered_def_ok(ds[j], hir::def_of(#[trigger] h.defs@[j])),
            forall|j: int| 0 <= j < i ==> validate_def_err(#[trigger] ds[j]) is None,
            forall|j: int| 0 <= j < i ==> hir::def_wf(h.types, hir::def_of(#[trigger] h.defs@[j])),
        decreases ndefs - i,
    {
        proof {
            lemma_first_validate_err_skip(ds, i as int);
            assert(ds.skip(i as int)[0] == ds[i as int]);
        }
        let def = match &h.defs[i] {
            hir::ItemDef::Syscall(d) => d,
        };
        proof {
            assert(*def == hir::def_of(h.defs@[i as int]));
            assert(lowered_def_ok(ds[i as int], *def));
        }
        let fc = def.body.field_count();
        if fc < 1 || fc > 7 {
            proof {
                assert(validate_def_err(ds[i as int]) == Some(MagicError::BadArity));
            }
            return Err(MagicError::BadArity);
        }
        let nf = fc;
        let mut j: usize = 0;
        while j < nf
            invariant
                0 <= j <= nf,
                ndefs == ds.len(),
                0 <= i < ndefs,
                parse_spec(s@) == Some(ds),
                first_lower_err(ds) is None,
                forall|k: int| 0 <= k < i ==> validate_def_err(#[trigger] ds[k]) is None,
                *def == hir::def_of(h.defs@[i as int]),
                lowered_def_ok(ds[i as int], *def),
                nf == def.body.fields@.len(),
                1 <= nf <= 7,
                hir::primitives_ok(h.types),
                forall|k: int| 0 <= k < j ==> is_primitive_name(#[trigger] ds[i as int].fields[k].ty),
                forall|k: int|
                    0 <= k < j ==> h.types.contains_name(
                        #[trigger] def.body.fields@[k].ty_info.ty_name@,
                    ),
            decreases nf - j,
        {
            proof {
                lemma_first_unknown_ty_skip(ds[i as int].fields, j as int);
                assert(ds[i as int].fields.skip(j as int)[0] == ds[i as int].fields[j as int]);
            }
            if !h.types.contains(def.body.fields[j].ty_info.ty_name.as_str()) {
                proof {
                    assert(def.body.fields@[j as int].ty_info.ty_name@ == ds[i as int].fields[j as int].ty);
                    assert(!is_primitive_name(ds[i as int].fields[j as int].ty));
                    assert(first_unknown_ty(ds[i as int].fields) == Some(MagicError::UnknownType));
                    assert(validate_def_err(ds[i as int]) == Some(MagicError::UnknownType));
                    lemma_first_validate_err_skip(ds, i as int);
                    assert(ds.skip(i as int)[0] == ds[i as int]);
                }
                return Err(MagicError::UnknownType);
            }
            j = j + 1;
        }
        proof {
            lemma_first_unknown_ty_skip(ds[i as int].fields, nf as int);
            assert(ds[i as int].fields.skip(nf as int) =~= Seq::<SpecField>::empty());
        }
        i = i + 1;
    }
    proof {
        lemma_first_validate_err_skip(ds, ndefs as int);
        assert(ds.skip(ndefs as int) =~= Seq::<SpecDef>::empty());
        assert(loaded_ok(ds, h));
        emit::lemma_loaded_loadable(s@, ds, h);
    }
    Ok(h)
}

} // verus!
