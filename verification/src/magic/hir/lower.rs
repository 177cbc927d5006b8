//! Lowers the parse tree into the high-level schema representation.

use vstd::prelude::*;

use crate::magic::hir;
use crate::magic::parse_tree;
use crate::magic::parse_tree::{
    attr_get, attr_lookup, def_view, field_view, is_digit, item_view, SpecDef, SpecField,
};
use crate::strutil::str_eq;

verus! {

/// Why a schema failed to load.
#[derive(Debug, Clone, Copy, PartialEq, Eq, Structural)]
pub enum MagicError {
    /// The text does not match the grammar.
    Syntax,
    /// A definition lacks the required `id` attribute.
    MissingId,
    /// An `id` attribute is not a decimal number that fits 32 bits.
    BadId,
    /// A `kind` attribute holds something other than `in`, `out` or `inout`.
    BadKind,
    /// A definition has no return field, or more than six parameters.
    BadArity,
    /// A field names a type the type database does not know.
    UnknownType,
}

// ---------------------------------------------------------------------------
// Decimal numbers.

/// The number a digit string denotes.
pub open spec fn digits_val(s: Seq<char>) -> int
    decreases s.len(),
{
    if s.len() == 0 {
        0
    } else {
        digits_val(s.drop_last()) * 10 + (s.last() as u32 - '0' as u32)
    }
}

pub open spec fn all_digits(s: Seq<char>) -> bool {
    forall|i: int| 0 <= i < s.len() ==> is_digit(#[trigger] s[i])
}

/// What a decimal `u32` literal parses to: a non-empty digit string whose
/// value fits 32 bits.
pub open spec fn parse_u32_spec(s: Seq<char>) -> Option<u32> {
    if s.len() > 0 && all_digits(s) && digits_val(s) < 0x1_0000_0000 {
        Some(digits_val(s) as u32)
    } else {
        None
    }
}

proof fn lemma_digits_val_nonneg(s: Seq<char>)
    requires
        all_digits(s),
    ensures
        digits_val(s) >= 0,
    decreases s.len(),
{
    if s.len() > 0 {
        assert(all_digits(s.drop_last())) by {
            assert(forall|i: int| 0 <= i < s.len() - 1 ==> s.drop_last()[i] == s[i]);
        }
        lemma_digits_val_nonneg(s.drop_last());
        assert(is_digit(s[s.len() - 1]));
    }
}

/// A longer digit string denotes at least as large a number.
proof fn lemma_digits_val_mono(s: Seq<char>, i: int)
    requires
        all_digits(s),
        0 <= i <= s.len(),
    ensures
        digits_val(s.subrange(0, i)) <= digits_val(s),
    decreases s.len() - i,
{
    assert(all_digits(s.subrange(0, i)));
    if i < s.len() {
        lemma_digits_val_mono(s, i + 1);
        assert(s.subrange(0, i + 1).drop_last() =~= s.subrange(0, i));
        assert(digits_val(s.subrange(0, i + 1)) == digits_val(s.subrange(0, i)) * 10 + (s[i] as u32
            - '0' as u32));
        lemma_digits_val_nonneg(s.subrange(0, i));
        assert(is_digit(s[i]));
    } else {
        assert(s.subrange(0, i) =~= s);
    }
}

/// Parse a decimal `u32`.
pub fn parse_u32(st: &str) -> (r: Option<u32>)
    ensures
        r == parse_u32_spec(st@),
{
    let n = st.unicode_len();
    if n == 0 {
        return None;
    }
    let mut acc: u64 = 0;
    let mut i: usize = 0;
    while i < n
        invariant
            0 <= i <= n,
            n == st@.len(),
            n > 0,
            all_digits(st@.subrange(0, i as int)),
            acc as int == digits_val(st@.subrange(0, i as int)),
            acc <= 0xffff_ffff,
        decreases n - i,
    {
        let c = st.get_char(i);
        let u = c as u32;
        if u < ('0' as u32) || u > ('9' as u32) {
            proof {
                assert(!is_digit(st@[i as int]));
            }
            return None;
        }
        let d = (u - ('0' as u32)) as u64;
        let next: u64 = acc * 10 + d;
        proof {
            assert(st@.subrange(0, i as int + 1).drop_last() =~= st@.subrange(0, i as int));
            assert(all_digits(st@.subrange(0, i as int + 1)));
        }
        if next > 0xffff_ffff {
            proof {
                if all_digits(st@) {
                    lemma_digits_val_mono(st@, i as int + 1);
                }
            }
            return None;
        }
        acc = next;
        i = i + 1;
    }
    proof {
        assert(st@.subrange(0, n as int) =~= st@);
    }
    Some(acc as u32)
}

// ---------------------------------------------------------------------------
// Splitting a length path on `::`.

/// The first position at or after `i` where `::` occurs.
pub open spec fn find_sep(s: Seq<char>, i: int) -> Option<int>
    decreases s.len() - i,
{
    if i < 0 || i + 2 > s.len() {
        None
    } else if s[i] == ':' && s[i + 1] == ':' {
        Some(i)
    } else {
        find_sep(s, i + 1)
    }
}

pub proof fn lemma_find_sep_props(s: Seq<char>, i: int)
    requires
        0 <= i,
    ensures
        match find_sep(s, i) {
            Some(k) => i <= k && k + 2 <= s.len() && s[k] == ':' && s[k + 1] == ':' && (forall|
                j: int,
            |
                #![trigger s[j]]
                i <= j < k ==> !(s[j] == ':' && s[j + 1] == ':')),
            None => forall|j: int|
                #![trigger s[j]]
                i <= j && j + 2 <= s.len() ==> !(s[j] == ':' && s[j + 1] == ':'),
        },
    decreases s.len() - i,
{
    if !(i < 0 || i + 2 > s.len()) && !(s[i] == ':' && s[i + 1] == ':') {
        lemma_find_sep_props(s, i + 1);
    }
}

/// The segments of `s` between occurrences of `::`.
pub open spec fn split_sep(s: Seq<char>) -> Seq<Seq<char>>
    decreases s.len(),
{
    match find_sep(s, 0) {
        None => seq![s],
        Some(k) => if 0 <= k && k + 2 <= s.len() {
            seq![s.subrange(0, k)] + split_sep(s.subrange(k + 2, s.len() as int))
        } else {
            seq![s]
        },
    }
}

/// Find the first `::` in the text.
fn find_sep_e(st: &str) -> (r: Option<usize>)
    ensures
        match find_sep(st@, 0) {
            Some(k) => r matches Some(x) && x as int == k,
            None => r is None,
        },
{
    let n = st.unicode_len();
    if n < 2 {
        return None;
    }
    let mut i: usize = 0;
    while i < n - 1
        invariant
            0 <= i <= n,
            2 <= n,
            n == st@.len(),
            find_sep(st@, 0) == find_sep(st@, i as int),
        decreases n - i,
    {
        if st.get_char(i) == ':' && st.get_char(i + 1) == ':' {
            return Some(i);
        }
        i = i + 1;
    }
    None
}

/// Split a length path on `::`.
pub fn split_colons(st: &str) -> (r: Vec<String>)
    ensures
        r@.map_values(|x: String| x@) == split_sep(st@),
    decreases st@.len(),
{
    let n = st.unicode_len();
    match find_sep_e(st) {
        Some(i) => {
            proof {
                lemma_find_sep_props(st@, 0);
            }
            let head = st.substring_char(0, i).to_owned();
            let rest_str = st.substring_char(i + 2, n);
            let mut rest = split_colons(rest_str);
            let ghost rest0 = rest@;
            rest.insert(0, head);
            proof {
                assert(rest@.map_values(|x: String| x@) =~= seq![st@.subrange(0, i as int)]
                    + rest0.map_values(|x: String| x@));
            }
            rest
        },
        None => {
            let mut out: Vec<String> = Vec::new();
            out.push(st.to_owned());
            proof {
                assert(out@.map_values(|x: String| x@) =~= seq![st@]);
            }
            out
        },
    }
}

// ---------------------------------------------------------------------------
// Lowering proper.

/// The strategy a definition's `kind` attribute denotes; an absent attribute
/// means exit-only, an unknown value is an error.
pub open spec fn strategy_spec(attrs: Seq<(Seq<char>, Seq<char>)>) -> Option<
    hir::SyscallAnalyzeStrategy,
> {
    match attr_lookup(attrs, "kind"@) {
        None => Some(hir::SyscallAnalyzeStrategy { on_enter: false, on_exit: true }),
        Some(v) => if v == "in"@ {
            Some(hir::SyscallAnalyzeStrategy { on_enter: true, on_exit: false })
        } else if v == "out"@ {
            Some(hir::SyscallAnalyzeStrategy { on_enter: false, on_exit: true })
        } else if v == "inout"@ {
            Some(hir::SyscallAnalyzeStrategy { on_enter: true, on_exit: true })
        } else {
            None
        },
    }
}

/// What a lowered field must hold: the declared names, and the length path
/// split on `::`.
pub open spec fn lowered_field_ok(sf: SpecField, out: hir::FieldDef) -> bool {
    &&& out.name@ == sf.name
    &&& out.ty_info.ty_name@ == sf.ty
    &&& out.ty_info.len_ref@.map_values(|x: String| x@) == (match attr_lookup(sf.attrs, "len"@) {
        Some(v) => split_sep(v),
        None => Seq::<Seq<char>>::empty(),
    })
}

/// What a lowered definition must hold.
pub open spec fn lowered_def_ok(sd: SpecDef, out: hir::SyscallDef) -> bool {
    &&& out.name@ == sd.name
    &&& (attr_lookup(sd.attrs, "id"@) matches Some(v) && parse_u32_spec(v) == Some(out.id.0))
    &&& Some(out.strategy) == strategy_spec(sd.attrs)
    &&& out.body.fields@.len() == sd.fields.len()
    &&& forall|i: int|
        0 <= i < sd.fields.len() ==> lowered_field_ok(sd.fields[i], #[trigger] out.body.fields@[i])
}

/// The error lowering one definition reports, if any: a missing id first,
/// then a malformed id, then a malformed kind.
pub open spec fn lower_def_err(sd: SpecDef) -> Option<MagicError> {
    match attr_lookup(sd.attrs, "id"@) {
        None => Some(MagicError::MissingId),
        Some(v) => if parse_u32_spec(v) is None {
            Some(MagicError::BadId)
        } else if strategy_spec(sd.attrs) is None {
            Some(MagicError::BadKind)
        } else {
            None
        },
    }
}

/// Lower one field declaration.
fn lower_field_def(ast: &parse_tree::FieldDef) -> (r: hir::FieldDef)
    ensures
        lowered_field_ok(field_view(*ast), r),
{
    let len_ref: Vec<String> = match attr_get(&ast.attrs, "len") {
        Some(len) => split_colons(len.as_str()),
        None => Vec::new(),
    };
    proof {
        reveal_strlit("len");
        if attr_lookup(field_view(*ast).attrs, "len"@) is None {
            assert(Seq::<String>::empty().map_values(|x: String| x@) =~= Seq::<Seq<char>>::empty());
        }
    }
    hir::FieldDef {
        name: ast.name.clone(),
        ty_info: hir::FieldTypeInfo { ty_name: ast.ty.clone(), len_ref },
    }
}

/// Lower a definition body, field by field.
pub fn lower_def_body(ast: &parse_tree::DefBody) -> (r: hir::DefBody)
    ensures
        r.fields@.len() == ast.fields@.len(),
        forall|i: int|
            0 <= i < ast.fields@.len() ==> lowered_field_ok(
                field_view(ast.fields@[i]),
                #[trigger] r.fields@[i],
            ),
{
    let n = ast.fields.len();
    let mut fields: Vec<hir::FieldDef> = Vec::new();
    let mut i: usize = 0;
    while i < n
        invariant
            0 <= i <= n,
            n == ast.fields@.len(),
            fields@.len() == i,
            forall|j: int|
                0 <= j < i ==> lowered_field_ok(
                    field_view(ast.fields@[j]),
                    #[trigger] fields@[j],
                ),
        decreases n - i,
    {
        let f = lower_field_def(&ast.fields[i]);
        fields.push(f);
        i = i + 1;
    }
    hir::DefBody { fields }
}

/// Lower one syscall definition; its attributes decide the id and strategy.
pub fn lower_syscall_def(syscall_def_ast: &parse_tree::SyscallDef) -> (r: Result<
    hir::SyscallDef,
    MagicError,
>)
    ensures
        match lower_def_err(def_view(*syscall_def_ast)) {
            Some(e) => r == Err::<hir::SyscallDef, MagicError>(e),
            None => r matches Ok(d) && lowered_def_ok(def_view(*syscall_def_ast), d),
        },
{
    proof {
        reveal_strlit("id");
        reveal_strlit("kind");
        reveal_strlit("in");
        reveal_strlit("out");
        reveal_strlit("inout");
    }
    let syscall_id: u32 = match attr_get(&syscall_def_ast.attrs, "id") {
        Some(v) => match parse_u32(v.as_str()) {
            Some(n) => n,
            None => {
                return Err(MagicError::BadId);
            },
        },
        None => {
            return Err(MagicError::MissingId);
        },
    };
    let strategy: hir::SyscallAnalyzeStrategy = match attr_get(&syscall_def_ast.attrs, "kind") {
        Some(s) => {
            if str_eq(s.as_str(), "in") {
                hir::SyscallAnalyzeStrategy { on_enter: true, on_exit: false }
            } else if str_eq(s.as_str(), "out") {
                hir::SyscallAnalyzeStrategy { on_enter: false, on_exit: true }
            } else if str_eq(s.as_str(), "inout") {
                hir::SyscallAnalyzeStrategy { on_enter: true, on_exit: true }
            } else {
                return Err(MagicError::BadKind);
            }
        },
        None => hir::SyscallAnalyzeStrategy { on_enter: false, on_exit: true },
    };
    Ok(
        hir::SyscallDef {
            id: hir::SyscallId(syscall_id),
            name: syscall_def_ast.name.clone(),
            body: lower_def_body(&syscall_def_ast.body),
            strategy,
        },
    )
}

/// Lower one top-level item.
pub fn lower_def(def_ast: &parse_tree::ItemDef) -> (r: Result<hir::ItemDef, MagicError>)
    ensures
        match def_ast {
            parse_tree::ItemDef::Syscall(d) => match lower_def_err(def_view(*d)) {
                Some(e) => r == Err::<hir::ItemDef, MagicError>(e),
                None => r matches Ok(it) && lowered_def_ok(def_view(*d), hir::def_of(it)),
            },
        },
{
    match def_ast {
        parse_tree::ItemDef::Syscall(def) => match lower_syscall_def(def) {
            Ok(d) => Ok(hir::ItemDef::Syscall(d)),
            Err(e) => Err(e),
        },
    }
}

/// The first error lowering a sequence of definitions reports, if any.
pub open spec fn first_lower_err(ds: Seq<SpecDef>) -> Option<MagicError>
    decreases ds.len(),
{
    if ds.len() == 0 {
        None
    } else {
        match lower_def_err(ds[0]) {
            Some(e) => Some(e),
            None => first_lower_err(ds.drop_first()),
        }
    }
}

proof fn lemma_first_lower_err_skip(ds: Seq<SpecDef>, i: int)
    requires
        0 <= i <= ds.len(),
        forall|j: int| 0 <= j < i ==> lower_def_err(#[trigger] ds[j]) is None,
    ensures
        first_lower_err(ds) == first_lower_err(ds.skip(i)),
    decreases i,
{
    if i > 0 {
        assert(ds.skip(i - 1).drop_first() =~= ds.skip(i));
        assert(ds.skip(i - 1)[0] == ds[i - 1]);
        lemma_first_lower_err_skip(ds, i - 1);
    } else {
        assert(ds.skip(0) =~= ds);
    }
}

/// Lower the whole parse tree into a schema with an empty type database. The
/// first definition that fails decides the error.
pub fn lower(pt: &parse_tree::Input) -> (r: Result<hir::Hir, MagicError>)
    ensures
        match first_lower_err(parse_tree::input_view(*pt)) {
            Some(e) => r == Err::<hir::Hir, MagicError>(e),
            None => r matches Ok(h) && h.types.entries@.len() == 0 && h.defs@.len()
                == pt.defs@.len() && (forall|i: int|
                0 <= i < pt.defs@.len() ==> lowered_def_ok(
                    item_view(pt.defs@[i]),
                    hir::def_of(#[trigger] h.defs@[i]),
                )),
        },
{
    let ghost view = parse_tree::input_view(*pt);
    let n = pt.defs.len();
    let mut defs: Vec<hir::ItemDef> = Vec::new();
    let mut i: usize = 0;
    while i < n
        invariant
            0 <= i <= n,
            n == pt.defs@.len(),
            view == parse_tree::input_view(*pt),
            view.len() == n,
            defs@.len() == i,
            forall|j: int| 0 <= j < i ==> lower_def_err(#[trigger] view[j]) is None,
            forall|j: int|
                0 <= j < i ==> lowered_def_ok(item_view(pt.defs@[j]), hir::def_of(#[trigger] defs@[j])),
        decreases n - i,
    {
        proof {
            assert(view[i as int] == item_view(pt.defs@[i as int]));
        }
        match lower_def(&pt.defs[i]) {
            Ok(d) => {
                defs.push(d);
            },
            Err(e) => {
                proof {
                    lemma_first_lower_err_skip(view, i as int);
                    assert(view.skip(i as int)[0] == view[i as int]);
                }
                return Err(e);
            },
        }
        i = i + 1;
    }
    proof {
        lemma_first_lower_err_skip(view, n as int);
        assert(view.skip(n as int) =~= Seq::<SpecDef>::empty());
    }
    Ok(hir::Hir { defs, types: Default::default() })
}

} // verus!
