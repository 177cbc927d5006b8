//! Serializes syscall definitions back into schema text.
//!
//! The emitted text is canonical: every definition carries its `id` and
//! `kind` attributes, fields carry a `len` attribute exactly when they have a
//! length path, and tokens are separated by single spaces and newlines.

use vstd::prelude::*;

use crate::magic::hir::{def_of, Hir, ItemDef, SyscallAnalyzeStrategy, SyscallDef};
use crate::magic::hir::FieldDef;

verus! {

/// The decimal digits of `n`, most significant first.
pub open spec fn dec_seq(n: int) -> Seq<char>
    decreases n,
{
    if n < 10 {
        seq![digit_char(n)]
    } else {
        dec_seq(n / 10).push(digit_char(n % 10))
    }
}

/// The character of one decimal digit.
pub open spec fn digit_char(d: int) -> char {
    if d == 0 {
        '0'
    } else if d == 1 {
        '1'
    } else if d == 2 {
        '2'
    } else if d == 3 {
        '3'
    } else if d == 4 {
        '4'
    } else if d == 5 {
        '5'
    } else if d == 6 {
        '6'
    } else if d == 7 {
        '7'
    } else if d == 8 {
        '8'
    } else {
        '9'
    }
}

/// The decimal text of `n`.
pub fn u32_to_string(n: u32) -> (r: String)
    ensures
        r@ == dec_seq(n as int),
    decreases n,
{
    let mut s = if n < 10 {
        String::new()
    } else {
        u32_to_string(n / 10)
    };
    let d = n % 10;
    let piece: &str = if d == 0 {
        "0"
    } else if d == 1 {
        "1"
    } else if d == 2 {
        "2"
    } else if d == 3 {
        "3"
    } else if d == 4 {
        "4"
    } else if d == 5 {
        "5"
    } else if d == 6 {
        "6"
    } else if d == 7 {
        "7"
    } else if d == 8 {
        "8"
    } else {
        "9"
    };
    proof {
        reveal_strlit("0");
        reveal_strlit("1");
        reveal_strlit("2");
        reveal_strlit("3");
        reveal_strlit("4");
        reveal_strlit("5");
        reveal_strlit("6");
        reveal_strlit("7");
        reveal_strlit("8");
        reveal_strlit("9");
        assert(piece@ =~= seq![digit_char(n as int % 10)]);
        if n < 10 {
            assert(s@ + piece@ =~= seq![digit_char(n as int)]);
        } else {
            assert(s@ + piece@ =~= dec_seq(n as int / 10).push(digit_char(n as int % 10)));
        }
    }
    s.append(piece);
    s
}

/// The segments of a length path joined with `::`.
pub open spec fn join_sep(segs: Seq<Seq<char>>) -> Seq<char>
    decreases segs.len(),
{
    if segs.len() == 0 {
        Seq::empty()
    } else if segs.len() == 1 {
        segs[0]
    } else {
        segs[0] + seq![':', ':'] + join_sep(segs.drop_first())
    }
}

/// Join a length path with `::`.
pub fn join_colons(segs: &Vec<String>) -> (r: String)
    ensures
        r@ == join_sep(segs@.map_values(|x: String| x@)),
{
    let ghost view = segs@.map_values(|x: String| x@);
    let n = segs.len();
    let mut out = String::new();
    let mut i: usize = 0;
    while i < n
        invariant
            0 <= i <= n,
            n == segs@.len(),
            view == segs@.map_values(|x: String| x@),
            view.len() == n,
            out@ == join_sep(view.take(i as int)),
        decreases n - i,
    {
        if i > 0 {
            out.append("::");
            proof {
                reveal_strlit("::");
            }
        }
        out.append(segs[i].as_str());
        proof {
            lemma_join_take_step(view, i as int);
            assert(view.take(i as int + 1)[i as int] == view[i as int]);
        }
        i = i + 1;
    }
    proof {
        assert(view.take(n as int) =~= view);
    }
    out
}

/// Appending one more segment to a joined prefix.
proof fn lemma_join_take_step(view: Seq<Seq<char>>, i: int)
    requires
        0 <= i < view.len(),
    ensures
        join_sep(view.take(i + 1)) == if i == 0 {
            view[0]
        } else {
            join_sep(view.take(i)) + seq![':', ':'] + view[i]
        },
    decreases i,
{
    let t1 = view.take(i + 1);
    if i == 0 {
        assert(t1.len() == 1);
        assert(join_sep(t1) == t1[0]);
        assert(t1[0] == view[0]);
    } else {
        lemma_join_shift(view, 0, i + 1);
    }
}

/// Joining a slice equals joining head plus joining the rest, written for
/// take-prefixes: join(take(k+1)) == join(take(k)) ++ "::" ++ view[k] for
/// k >= 1, by induction over the front.
proof fn lemma_join_shift(view: Seq<Seq<char>>, lo: int, hi: int)
    requires
        0 <= lo,
        lo + 2 <= hi <= view.len(),
    ensures
        join_sep(view.subrange(lo, hi)) == join_sep(view.subrange(lo, hi - 1)) + seq![':', ':']
            + view[hi - 1],
    decreases hi - lo,
{
    let whole = view.subrange(lo, hi);
    let prefix = view.subrange(lo, hi - 1);
    if hi - lo == 2 {
        assert(whole.drop_first() =~= view.subrange(lo + 1, hi));
        assert(whole.drop_first().len() == 1);
        assert(join_sep(whole) == whole[0] + seq![':', ':'] + whole.drop_first()[0]);
        assert(prefix.len() == 1);
        assert(whole[0] == prefix[0]);
        assert(whole.drop_first()[0] == view[hi - 1]);
    } else {
        lemma_join_shift(view, lo + 1, hi);
        assert(whole.drop_first() =~= view.subrange(lo + 1, hi));
        assert(prefix.drop_first() =~= view.subrange(lo + 1, hi - 1));
        assert(join_sep(whole) == whole[0] + seq![':', ':'] + join_sep(view.subrange(lo + 1, hi)));
        assert(join_sep(prefix) == prefix[0] + seq![':', ':'] + join_sep(
            view.subrange(lo + 1, hi - 1),
        ));
        assert(whole[0] == prefix[0]);
        assert((whole[0] + seq![':', ':'] + (join_sep(view.subrange(lo + 1, hi - 1)) + seq![
            ':',
            ':',
        ] + view[hi - 1])) =~= ((prefix[0] + seq![':', ':'] + join_sep(
            view.subrange(lo + 1, hi - 1),
        )) + seq![':', ':'] + view[hi - 1]));
    }
}

/// The `kind` attribute value of a strategy. A strategy with neither side set
/// cannot come from a loaded schema; it is rendered as exit-only.
pub open spec fn kind_chars(st: SyscallAnalyzeStrategy) -> Seq<char> {
    if st.on_enter && st.on_exit {
        seq!['i', 'n', 'o', 'u', 't']
    } else if st.on_enter {
        seq!['i', 'n']
    } else {
        seq!['o', 'u', 't']
    }
}

/// The emitted text of one field declaration.
pub open spec fn emit_field(f: FieldDef) -> Seq<char> {
    (if f.ty_info.len_ref@.len() > 0 {
        seq!['[', 'l', 'e', 'n', '='] + (join_sep(f.ty_info.len_ref@.map_values(|x: String| x@)) + (
        seq![']', ' '] + (f.name@ + (seq![':', ' '] + (f.ty_info.ty_name@ + seq![';', '\n'])))))
    } else {
        f.name@ + (seq![':', ' '] + (f.ty_info.ty_name@ + seq![';', '\n']))
    })
}

/// The emitted text of a body's fields.
pub open spec fn emit_fields(fields: Seq<FieldDef>) -> Seq<char>
    decreases fields.len(),
{
    if fields.len() == 0 {
        Seq::empty()
    } else {
        emit_field(fields[0]) + emit_fields(fields.drop_first())
    }
}

/// The emitted text of one definition.
pub open spec fn emit_def(d: SyscallDef) -> Seq<char> {
    seq!['[', 'i', 'd', '='] + (dec_seq(d.id.0 as int) + (seq![',', ' ', 'k', 'i', 'n', 'd', '='] + (
    kind_chars(d.strategy) + (seq![']', ' '] + (d.name@ + (seq![' ', '{', '\n'] + (emit_fields(
        d.body.fields@,
    ) + seq!['}', '\n'])))))))
}

/// The emitted text of a whole schema's definitions.
pub open spec fn emit_defs(defs: Seq<ItemDef>) -> Seq<char>
    decreases defs.len(),
{
    if defs.len() == 0 {
        Seq::empty()
    } else {
        emit_def(def_of(defs[0])) + emit_defs(defs.drop_first())
    }
}

#[verifier::rlimit(100)]
fn serialize_field(out: &mut String, f: &FieldDef)
    ensures
        final(out)@ == old(out)@ + emit_field(*f),
{
    proof {
        reveal_strlit("[len=");
        reveal_strlit("] ");
        reveal_strlit(": ");
        reveal_strlit(";\n");
    }
    if f.ty_info.len_ref.len() > 0 {
        out.append("[len=");
        let joined = join_colons(&f.ty_info.len_ref);
        out.append(joined.as_str());
        out.append("] ");
    }
    out.append(f.name.as_str());
    out.append(": ");
    out.append(f.ty_info.ty_name.as_str());
    out.append(";\n");
    proof {
        assert("[len="@ =~= seq!['[', 'l', 'e', 'n', '=']);
        assert("] "@ =~= seq![']', ' ']);
        assert(": "@ =~= seq![':', ' ']);
        assert(";\n"@ =~= seq![';', '\n']);
        assert(final(out)@ =~= old(out)@ + emit_field(*f));
    }
}

#[verifier::rlimit(100)]
fn serialize_def(out: &mut String, d: &SyscallDef)
    ensures
        final(out)@ == old(out)@ + emit_def(*d),
{
    proof {
        reveal_strlit("[id=");
        reveal_strlit(", kind=");
        reveal_strlit("] ");
        reveal_strlit(" {\n");
        reveal_strlit("}\n");
        reveal_strlit("in");
        reveal_strlit("out");
        reveal_strlit("inout");
    }
    out.append("[id=");
    let num = u32_to_string(d.id.0);
    out.append(num.as_str());
    out.append(", kind=");
    if d.strategy.on_enter && d.strategy.on_exit {
        out.append("inout");
    } else if d.strategy.on_enter {
        out.append("in");
    } else {
        out.append("out");
    }
    out.append("] ");
    out.append(d.name.as_str());
    out.append(" {\n");
    let nf = d.body.fields.len();
    let mut i: usize = 0;
    let ghost mid = out@;
    while i < nf
        invariant
            0 <= i <= nf,
            nf == d.body.fields@.len(),
            out@ == mid + emit_fields(d.body.fields@.take(i as int)),
        decreases nf - i,
    {
        proof {
            lemma_emit_fields_take_step(d.body.fields@, i as int);
        }
        serialize_field(out, &d.body.fields[i]);
        i = i + 1;
    }
    out.append("}\n");
    proof {
        assert(d.body.fields@.take(nf as int) =~= d.body.fields@);
        assert("[id="@ =~= seq!['[', 'i', 'd', '=']);
        assert(", kind="@ =~= seq![',', ' ', 'k', 'i', 'n', 'd', '=']);
        assert("] "@ =~= seq![']', ' ']);
        assert(" {\n"@ =~= seq![' ', '{', '\n']);
        assert("}\n"@ =~= seq!['}', '\n']);
        assert("in"@ =~= seq!['i', 'n']);
        assert("out"@ =~= seq!['o', 'u', 't']);
        assert("inout"@ =~= seq!['i', 'n', 'o', 'u', 't']);
        assert(final(out)@ =~= old(out)@ + emit_def(*d));
    }
}

proof fn lemma_emit_fields_take_step(fields: Seq<FieldDef>, i: int)
    requires
        0 <= i < fields.len(),
    ensures
        emit_fields(fields.take(i + 1)) == emit_fields(fields.take(i)) + emit_field(fields[i]),
    decreases i,
{
    lemma_emit_fields_shift(fields, 0, i + 1);
}

proof fn lemma_emit_fields_shift(fields: Seq<FieldDef>, lo: int, hi: int)
    requires
        0 <= lo < hi <= fields.len(),
    ensures
        emit_fields(fields.subrange(lo, hi)) == emit_fields(fields.subrange(lo, hi - 1))
            + emit_field(fields[hi - 1]),
    decreases hi - lo,
{
    let whole = fields.subrange(lo, hi);
    let prefix = fields.subrange(lo, hi - 1);
    if hi - lo == 1 {
        assert(whole.drop_first() =~= Seq::<FieldDef>::empty());
        assert(prefix =~= Seq::<FieldDef>::empty());
        assert(emit_fields(whole) == emit_field(whole[0]) + emit_fields(whole.drop_first()));
        assert(whole[0] == fields[hi - 1]);
        assert(emit_field(fields[hi - 1]) + Seq::<char>::empty() =~= Seq::<char>::empty()
            + emit_field(fields[hi - 1]));
    } else {
        lemma_emit_fields_shift(fields, lo + 1, hi);
        assert(whole.drop_first() =~= fields.subrange(lo + 1, hi));
        assert(prefix.drop_first() =~= fields.subrange(lo + 1, hi - 1));
        assert(whole[0] == prefix[0]);
        assert((emit_field(whole[0]) + (emit_fields(fields.subrange(lo + 1, hi - 1)) + emit_field(
            fields[hi - 1],
        ))) =~= ((emit_field(prefix[0]) + emit_fields(fields.subrange(lo + 1, hi - 1)))
            + emit_field(fields[hi - 1])));
    }
}

proof fn lemma_emit_defs_take_step(defs: Seq<ItemDef>, i: int)
    requires
        0 <= i < defs.len(),
    ensures
        emit_defs(defs.take(i + 1)) == emit_defs(defs.take(i)) + emit_def(def_of(defs[i])),
    decreases i,
{
    lemma_emit_defs_shift(defs, 0, i + 1);
}

proof fn lemma_emit_defs_shift(defs: Seq<ItemDef>, lo: int, hi: int)
    requires
        0 <= lo < hi <= defs.len(),
    ensures
        emit_defs(defs.subrange(lo, hi)) == emit_defs(defs.subrange(lo, hi - 1)) + emit_def(
            def_of(defs[hi - 1]),
        ),
    decreases hi - lo,
{
    let whole = defs.subrange(lo, hi);
    let prefix = defs.subrange(lo, hi - 1);
    if hi - lo == 1 {
        assert(whole.drop_first() =~= Seq::<ItemDef>::empty());
        assert(prefix =~= Seq::<ItemDef>::empty());
        assert(emit_defs(whole) == emit_def(def_of(whole[0])) + emit_defs(whole.drop_first()));
        assert(whole[0] == defs[hi - 1]);
        assert(emit_def(def_of(defs[hi - 1])) + Seq::<char>::empty() =~= Seq::<char>::empty()
            + emit_def(def_of(defs[hi - 1])));
    } else {
        lemma_emit_defs_shift(defs, lo + 1, hi);
        assert(whole.drop_first() =~= defs.subrange(lo + 1, hi));
        assert(prefix.drop_first() =~= defs.subrange(lo + 1, hi - 1));
        assert(whole[0] == prefix[0]);
        assert((emit_def(def_of(whole[0])) + (emit_defs(defs.subrange(lo + 1, hi - 1)) + emit_def(
            def_of(defs[hi - 1]),
        ))) =~= ((emit_def(def_of(prefix[0])) + emit_defs(defs.subrange(lo + 1, hi - 1)))
            + emit_def(def_of(defs[hi - 1]))));
    }
}

// ---------------------------------------------------------------------------
// Round trip: the emitted text parses back, and reloading it yields an
// equivalent schema. The lemmas below walk the parser over each emitted piece.

use crate::magic::parse_tree::{
    is_ident_char, is_ident_start, is_value_char, is_ws, p_attr, p_attr_list, p_attr_rest,
    p_attrs_opt, p_char, p_def, p_defs, p_field, p_fields, p_ident, p_value, scan_ident,
    scan_value, skip_ws,
};
use crate::magic::parse_tree::{
    attr_lookup, lemma_p_ident_bounds, lemma_p_value_bounds, lemma_scan_ident_bounds,
    lemma_scan_ident_chars, lemma_scan_value_bounds, lemma_scan_value_chars, lemma_skip_ws_bounds,
    SpecDef, SpecField,
};
use crate::magic::hir::lower::{all_digits, digits_val, parse_u32_spec};

/// A name that lexes as one identifier token.
pub open spec fn ident_shaped(s: Seq<char>) -> bool {
    s.len() > 0 && is_ident_start(s[0]) && (forall|i: int|
        0 <= i < s.len() ==> is_ident_char(#[trigger] s[i]))
}

/// A string that lexes as one attribute-value token.
pub open spec fn value_shaped(s: Seq<char>) -> bool {
    s.len() > 0 && (forall|i: int| 0 <= i < s.len() ==> is_value_char(#[trigger] s[i]))
}

proof fn lemma_dec_seq_digits(n: int)
    requires
        0 <= n,
    ensures
        dec_seq(n).len() >= 1,
        all_digits(dec_seq(n)),
        digits_val(dec_seq(n)) == n,
    decreases n,
{
    if n < 10 {
        assert(dec_seq(n) =~= seq![digit_char(n)]);
        assert(dec_seq(n).drop_last() =~= Seq::<char>::empty());
        assert(digits_val(dec_seq(n)) == digits_val(Seq::<char>::empty()) * 10 + (digit_char(
            n,
        ) as u32 - '0' as u32));
    } else {
        lemma_dec_seq_digits(n / 10);
        let d = dec_seq(n / 10);
        assert(dec_seq(n) == d.push(digit_char(n % 10)));
        assert(dec_seq(n).drop_last() =~= d);
        assert(dec_seq(n).last() == digit_char(n % 10));
        assert(digits_val(dec_seq(n)) == digits_val(d) * 10 + (digit_char(n % 10) as u32
            - '0' as u32));
        assert((n / 10) * 10 + n % 10 == n) by {
            vstd::arithmetic::div_mod::lemma_fundamental_div_mod(n, 10);
        }
        assert forall|i: int| 0 <= i < dec_seq(n).len() implies crate::magic::parse_tree::is_digit(
            #[trigger] dec_seq(n)[i],
        ) by {
            if i < d.len() {
                assert(dec_seq(n)[i] == d[i]);
            }
        }
    }
}

/// The decimal text of a `u32` parses back to it.
pub proof fn lemma_dec_seq_parses(n: u32)
    ensures
        parse_u32_spec(dec_seq(n as int)) == Some(n),
        value_shaped(dec_seq(n as int)),
        forall|i: int|
            0 <= i < dec_seq(n as int).len() ==> !is_ws(#[trigger] dec_seq(n as int)[i])
                && dec_seq(n as int)[i] != ',' && dec_seq(n as int)[i] != ']',
{
    lemma_dec_seq_digits(n as int);
}

/// Skipping whitespace over a run of whitespace characters ends at the first
/// non-whitespace position.
proof fn lemma_skip_ws_run(s: Seq<char>, i: int, j: int)
    requires
        0 <= i <= j <= s.len(),
        forall|k: int| i <= k < j ==> is_ws(#[trigger] s[k]),
        j == s.len() || !is_ws(s[j]),
    ensures
        skip_ws(s, i) == j,
    decreases j - i,
{
    if i < j {
        lemma_skip_ws_run(s, i + 1, j);
    }
}

proof fn lemma_scan_ident_run(s: Seq<char>, i: int, j: int)
    requires
        0 <= i <= j <= s.len(),
        forall|k: int| i <= k < j ==> is_ident_char(#[trigger] s[k]),
        j == s.len() || !is_ident_char(s[j]),
    ensures
        scan_ident(s, i) == j,
    decreases j - i,
{
    if i < j {
        lemma_scan_ident_run(s, i + 1, j);
    }
}

proof fn lemma_scan_value_run(s: Seq<char>, i: int, j: int)
    requires
        0 <= i <= j <= s.len(),
        forall|k: int| i <= k < j ==> is_value_char(#[trigger] s[k]),
        j == s.len() || !is_value_char(s[j]),
    ensures
        scan_value(s, i) == j,
    decreases j - i,
{
    if i < j {
        lemma_scan_value_run(s, i + 1, j);
    }
}

/// After a whitespace run, an identifier-shaped run with a terminator parses
/// as that identifier.
proof fn lemma_ident_at(s: Seq<char>, i: int, b: int, t: Seq<char>)
    requires
        0 <= i <= b,
        b + t.len() <= s.len(),
        forall|k: int| i <= k < b ==> is_ws(#[trigger] s[k]),
        s.subrange(b, b + t.len()) == t,
        ident_shaped(t),
        b + t.len() == s.len() || !is_ident_char(s[b + t.len()]),
    ensures
        p_ident(s, i) == Some((t, b + t.len())),
{
    assert(s[b] == t[0]);
    assert(!is_ws(s[b]));
    lemma_skip_ws_run(s, i, b);
    assert forall|k: int| b <= k < b + t.len() implies is_ident_char(#[trigger] s[k]) by {
        assert(s[k] == t[k - b]);
    }
    lemma_scan_ident_run(s, b, b + t.len());
}

/// After a whitespace run, a value-shaped run with a terminator parses as
/// that value token.
proof fn lemma_value_at(s: Seq<char>, i: int, b: int, t: Seq<char>)
    requires
        0 <= i <= b,
        b + t.len() <= s.len(),
        forall|k: int| i <= k < b ==> is_ws(#[trigger] s[k]),
        s.subrange(b, b + t.len()) == t,
        value_shaped(t),
        b + t.len() == s.len() || !is_value_char(s[b + t.len()]),
    ensures
        p_value(s, i) == Some((t, b + t.len())),
{
    assert(s[b] == t[0]);
    assert(!is_ws(s[b]));
    lemma_skip_ws_run(s, i, b);
    assert forall|k: int| b <= k < b + t.len() implies is_value_char(#[trigger] s[k]) by {
        assert(s[k] == t[k - b]);
    }
    lemma_scan_value_run(s, b, b + t.len());
}

/// After a whitespace run, an expected punctuation character parses.
proof fn lemma_char_at(s: Seq<char>, i: int, b: int, c: char)
    requires
        0 <= i <= b < s.len(),
        forall|k: int| i <= k < b ==> is_ws(#[trigger] s[k]),
        s[b] == c,
        !is_ws(c),
    ensures
        p_char(s, i, c) == Some(b + 1),
{
    lemma_skip_ws_run(s, i, b);
}

/// After a whitespace run, an unexpected punctuation character refuses.
proof fn lemma_char_not_at(s: Seq<char>, i: int, b: int, c: char)
    requires
        0 <= i <= b < s.len(),
        forall|k: int| i <= k < b ==> is_ws(#[trigger] s[k]),
        s[b] != c,
        !is_ws(s[b]),
    ensures
        p_char(s, i, c) is None,
{
    lemma_skip_ws_run(s, i, b);
}

// ---------------------------------------------------------------------------
// The parsed form of emitted text.

/// The parse tree one emitted field yields.
pub open spec fn spec_field_of(f: FieldDef) -> crate::magic::parse_tree::SpecField {
    crate::magic::parse_tree::SpecField {
        attrs: if f.ty_info.len_ref@.len() > 0 {
            seq![
                (
                    seq!['l', 'e', 'n'],
                    join_sep(f.ty_info.len_ref@.map_values(|x: String| x@)),
                ),
            ]
        } else {
            Seq::empty()
        },
        name: f.name@,
        ty: f.ty_info.ty_name@,
    }
}

/// The parse tree one emitted definition yields.
pub open spec fn spec_def_of(d: SyscallDef) -> crate::magic::parse_tree::SpecDef {
    crate::magic::parse_tree::SpecDef {
        attrs: seq![
            (seq!['i', 'd'], dec_seq(d.id.0 as int)),
            (seq!['k', 'i', 'n', 'd'], kind_chars(d.strategy)),
        ],
        name: d.name@,
        fields: d.body.fields@.map_values(|f: FieldDef| spec_field_of(f)),
    }
}

/// What the round trip needs of a field: its names lex as single tokens, and
/// its length path is recovered by splitting its joined spelling.
pub open spec fn loadable_field(f: FieldDef) -> bool {
    &&& ident_shaped(f.name@)
    &&& ident_shaped(f.ty_info.ty_name@)
    &&& crate::magic::is_primitive_name(f.ty_info.ty_name@)
    &&& (f.ty_info.len_ref@.len() > 0 ==> value_shaped(
        join_sep(f.ty_info.len_ref@.map_values(|x: String| x@)),
    ))
    &&& (f.ty_info.len_ref@.len() > 0 ==> crate::magic::hir::lower::split_sep(
        join_sep(f.ty_info.len_ref@.map_values(|x: String| x@)),
    ) == f.ty_info.len_ref@.map_values(|x: String| x@))
}

/// What the round trip needs of a definition: its name lexes as one token,
/// its strategy has a `kind` spelling, and its fields are loadable.
pub open spec fn loadable_def(d: SyscallDef) -> bool {
    &&& ident_shaped(d.name@)
    &&& (d.strategy.on_enter || d.strategy.on_exit)
    &&& forall|j: int| 0 <= j < d.body.fields@.len() ==> loadable_field(#[trigger] d.body.fields@[j])
}


/// A piece of an emission occurring at its offset occurs in the text.
proof fn lemma_subrange_matches(s: Seq<char>, b: int, o: int, t: Seq<char>, whole: Seq<char>)
    requires
        0 <= b,
        0 <= o,
        o + t.len() <= whole.len(),
        b + whole.len() <= s.len(),
        s.subrange(b, b + whole.len() as int) == whole,
        forall|k: int| 0 <= k < t.len() ==> #[trigger] t[k] == whole[o + k],
    ensures
        s.subrange(b + o, b + o + t.len() as int) == t,
{
    assert forall|k: int| 0 <= k < t.len() implies s.subrange(b + o, b + o + t.len() as int)[k]
        == t[k] by {
        assert(s.subrange(b, b + whole.len() as int)[o + k] == s[b + o + k]);
    }
    assert(s.subrange(b + o, b + o + t.len() as int) =~= t);
}

/// One character of an emission occurring at its offset occurs in the text.
proof fn lemma_text_char(s: Seq<char>, b: int, whole: Seq<char>, o: int)
    requires
        0 <= b,
        b + whole.len() <= s.len(),
        s.subrange(b, b + whole.len() as int) == whole,
        0 <= o < whole.len(),
    ensures
        s[b + o] == whole[o],
{
    assert(s.subrange(b, b + whole.len() as int)[o] == s[b + o]);
}

/// The first and last characters of an emitted field.
proof fn lemma_emit_field_ends(f: FieldDef)
    requires
        loadable_field(f),
    ensures
        emit_field(f).len() >= 2,
        emit_field(f)[0] == (if f.ty_info.len_ref@.len() > 0 {
            '['
        } else {
            f.name@[0]
        }),
        !is_ws(emit_field(f)[0]),
        emit_field(f)[0] != '}',
        emit_field(f).last() == '\n',
{
    let ef = emit_field(f);
    let name = f.name@;
    let ty = f.ty_info.ty_name@;
    if f.ty_info.len_ref@.len() > 0 {
        assert(ef[0] == '[');
    } else {
        assert(ef[0] == name[0]);
        assert(is_ident_start(ef[0]));
    }
    assert(ef.last() == '\n');
}

/// The first and last characters of an emitted definition.
proof fn lemma_emit_def_ends(d: SyscallDef)
    ensures
        emit_def(d).len() >= 2,
        emit_def(d)[0] == '[',
        emit_def(d).last() == '\n',
{
    let ed = emit_def(d);
    assert(ed[0] == '[');
    assert(ed.last() == '\n');
}

/// One emitted field, possibly after whitespace, parses to its parse tree.
#[verifier::rlimit(50)]
proof fn lemma_field_parses(s: Seq<char>, i: int, b: int, f: FieldDef)
    requires
        0 <= i <= b,
        b + emit_field(f).len() <= s.len(),
        forall|k: int| i <= k < b ==> is_ws(#[trigger] s[k]),
        s.subrange(b, b + emit_field(f).len() as int) == emit_field(f),
        loadable_field(f),
    ensures
        p_field(s, i) == Some((spec_field_of(f), b + emit_field(f).len() - 1)),
{
    let ef = emit_field(f);
    let el = ef.len() as int;
    assert forall|k: int| 0 <= k < el implies s[b + k] == ef[k] by {
        assert(s.subrange(b, b + el)[k] == s[b + k]);
    }
    let name = f.name@;
    let ty = f.ty_info.ty_name@;
    let nn = name.len() as int;
    let nt = ty.len() as int;
    if f.ty_info.len_ref@.len() > 0 {
        let join = join_sep(f.ty_info.len_ref@.map_values(|x: String| x@));
        let nj = join.len() as int;
        // layout: [len= join ] _ name : _ ty ; \n
        assert(el == 11 + nj + nn + nt);
        lemma_text_char(s, b, ef, 0);
        lemma_text_char(s, b, ef, 1);
        lemma_text_char(s, b, ef, 4);
        lemma_text_char(s, b, ef, 5 + nj);
        lemma_text_char(s, b, ef, 6 + nj);
        lemma_text_char(s, b, ef, 7 + nj + nn);
        lemma_text_char(s, b, ef, 8 + nj + nn);
        lemma_text_char(s, b, ef, 9 + nj + nn + nt);
        assert(s[b] == '[' && s[b + 1] == 'l' && s[b + 4] == '=');
        assert(s[b + 5 + nj] == ']' && s[b + 6 + nj] == ' ');
        assert(s[b + 7 + nj + nn] == ':' && s[b + 8 + nj + nn] == ' ');
        assert(s[b + 9 + nj + nn + nt] == ';');
        lemma_skip_ws_run(s, i, b);
        assert(p_attrs_opt(s, i) == p_attr_list(s, i));
        lemma_char_at(s, i, b, '[');
        lemma_char_not_at(s, b + 1, b + 1, ']');
        let lentok = seq!['l', 'e', 'n'];
        assert forall|k: int| 0 <= k < 3 implies #[trigger] lentok[k] == ef[1 + k] by {}
        lemma_subrange_matches(s, b, 1, lentok, ef);
        lemma_ident_at(s, b + 1, b + 1, lentok);
        lemma_char_at(s, b + 4, b + 4, '=');
        assert forall|k: int| 0 <= k < nj implies #[trigger] join[k] == ef[5 + k] by {}
        lemma_subrange_matches(s, b, 5, join, ef);
        lemma_value_at(s, b + 5, b + 5, join);
        assert(p_attr(s, b + 1) == Some(((seq!['l', 'e', 'n'], join), b + 5 + nj)));
        lemma_char_not_at(s, b + 5 + nj, b + 5 + nj, ',');
        lemma_char_at(s, b + 5 + nj, b + 5 + nj, ']');
        assert(p_attr_rest(s, b + 5 + nj) == Some((
            Seq::<(Seq<char>, Seq<char>)>::empty(),
            b + 6 + nj,
        )));
        assert(seq![(seq!['l', 'e', 'n'], join)] + Seq::<(Seq<char>, Seq<char>)>::empty() =~= seq![
            (seq!['l', 'e', 'n'], join),
        ]);
        assert(p_attr_list(s, i) == Some((seq![(seq!['l', 'e', 'n'], join)], b + 6 + nj)));
        // name : _ ty ; \n
        assert forall|k: int| 0 <= k < nn implies #[trigger] name[k] == ef[7 + nj + k] by {}
        lemma_subrange_matches(s, b, 7 + nj, name, ef);
        lemma_ident_at(s, b + 6 + nj, b + 7 + nj, name);
        lemma_char_at(s, b + 7 + nj + nn, b + 7 + nj + nn, ':');
        assert forall|k: int| 0 <= k < nt implies #[trigger] ty[k] == ef[9 + nj + nn + k] by {}
        lemma_subrange_matches(s, b, 9 + nj + nn, ty, ef);
        lemma_ident_at(s, b + 8 + nj + nn, b + 9 + nj + nn, ty);
        lemma_char_at(s, b + 9 + nj + nn + nt, b + 9 + nj + nn + nt, ';');
        assert(p_field(s, i) == Some((spec_field_of(f), b + 10 + nj + nn + nt)));
    } else {
        // layout: name : _ ty ; \n
        assert(el == 4 + nn + nt);
        lemma_text_char(s, b, ef, 0);
        lemma_text_char(s, b, ef, nn);
        lemma_text_char(s, b, ef, 1 + nn);
        lemma_text_char(s, b, ef, 2 + nn + nt);
        assert(s[b] == name[0]);
        assert(s[b + nn] == ':' && s[b + 1 + nn] == ' ');
        assert(s[b + 2 + nn + nt] == ';');
        assert(is_ident_start(s[b]));
        assert(s[b] != '[');
        lemma_skip_ws_run(s, i, b);
        assert(p_attrs_opt(s, i) == Some((Seq::<(Seq<char>, Seq<char>)>::empty(), i)));
        assert forall|k: int| 0 <= k < nn implies #[trigger] name[k] == ef[k] by {}
        lemma_subrange_matches(s, b, 0, name, ef);
        lemma_ident_at(s, i, b, name);
        lemma_char_at(s, b + nn, b + nn, ':');
        assert forall|k: int| 0 <= k < nt implies #[trigger] ty[k] == ef[2 + nn + k] by {}
        lemma_subrange_matches(s, b, 2 + nn, ty, ef);
        lemma_ident_at(s, b + 1 + nn, b + 2 + nn, ty);
        lemma_char_at(s, b + 2 + nn + nt, b + 2 + nn + nt, ';');
        assert(p_field(s, i) == Some((spec_field_of(f), b + 3 + nn + nt)));
    }
}

/// A run of emitted fields, possibly after whitespace and closed by a brace,
/// parses to its parse trees and stops at the brace.
#[verifier::rlimit(50)]
proof fn lemma_fields_parse(s: Seq<char>, i: int, b: int, fields: Seq<FieldDef>)
    requires
        0 <= i <= b,
        b + emit_fields(fields).len() < s.len(),
        forall|k: int| i <= k < b ==> is_ws(#[trigger] s[k]),
        s.subrange(b, b + emit_fields(fields).len() as int) == emit_fields(fields),
        s[b + emit_fields(fields).len() as int] == '}',
        forall|j: int| 0 <= j < fields.len() ==> loadable_field(#[trigger] fields[j]),
    ensures
        p_fields(s, i) == Some((
            fields.map_values(|f: FieldDef| spec_field_of(f)),
            b + emit_fields(fields).len() as int,
        )),
    decreases fields.len(),
{
    let efs = emit_fields(fields);
    let el = efs.len() as int;
    assert forall|k: int| 0 <= k < el implies s[b + k] == efs[k] by {
        assert(s.subrange(b, b + el)[k] == s[b + k]);
    }
    if fields.len() == 0 {
        lemma_skip_ws_run(s, i, b);
        assert(fields.map_values(|f: FieldDef| spec_field_of(f)) =~= Seq::<
            crate::magic::parse_tree::SpecField,
        >::empty());
    } else {
        let f0 = fields[0];
        let ef0 = emit_field(f0);
        let e0 = ef0.len() as int;
        let rest = fields.drop_first();
        let efr = emit_fields(rest);
        assert(efs == ef0 + efr);
        lemma_emit_field_ends(f0);
        lemma_text_char(s, b, efs, 0);
        assert(s[b] == efs[0] && efs[0] == ef0[0]);
        assert(!is_ws(s[b]) && s[b] != '}');
        lemma_skip_ws_run(s, i, b);
        assert forall|k: int| 0 <= k < e0 implies #[trigger] ef0[k] == efs[k] by {}
        lemma_subrange_matches(s, b, 0, ef0, efs);
        lemma_field_parses(s, i, b, f0);
        let k = b + e0 - 1;
        lemma_text_char(s, b, efs, e0 - 1);
        assert(s[k] == efs[e0 - 1] && efs[e0 - 1] == ef0[e0 - 1] && ef0[e0 - 1] == ef0.last());
        assert(s[k] == '\n');
        assert forall|m: int| 0 <= m < efr.len() implies #[trigger] efr[m] == efs[e0 + m] by {}
        lemma_subrange_matches(s, b, e0, efr, efs);
        lemma_fields_parse(s, k, b + e0, rest);
        assert(seq![spec_field_of(f0)] + rest.map_values(|f: FieldDef| spec_field_of(f))
            =~= fields.map_values(|f: FieldDef| spec_field_of(f)));
    }
}

/// The attribute list of one emitted definition parses to its two attributes.
#[verifier::rlimit(100)]
proof fn lemma_def_attrs_parse(s: Seq<char>, i: int, b: int, d: SyscallDef)
    requires
        0 <= i <= b,
        b + emit_def(d).len() <= s.len(),
        forall|k: int| i <= k < b ==> is_ws(#[trigger] s[k]),
        s.subrange(b, b + emit_def(d).len() as int) == emit_def(d),
        loadable_def(d),
    ensures
        p_attrs_opt(s, i) == Some((
            spec_def_of(d).attrs,
            b + 12 + dec_seq(d.id.0 as int).len() + kind_chars(d.strategy).len(),
        )),
{
    let ed = emit_def(d);
    let el = ed.len() as int;
    let dec = dec_seq(d.id.0 as int);
    let nd = dec.len() as int;
    let kc = kind_chars(d.strategy);
    let nk = kc.len() as int;
    let nn = d.name@.len() as int;
    let nf = emit_fields(d.body.fields@).len() as int;
    assert(el == 18 + nd + nk + nn + nf);
    lemma_dec_seq_parses(d.id.0);
    assert(value_shaped(kc) && !is_ws(kc[0]));
    lemma_text_char(s, b, ed, 0);
    lemma_text_char(s, b, ed, 1);
    lemma_text_char(s, b, ed, 3);
    lemma_text_char(s, b, ed, 4 + nd);
    lemma_text_char(s, b, ed, 5 + nd);
    lemma_text_char(s, b, ed, 10 + nd);
    lemma_text_char(s, b, ed, 11 + nd + nk);
    assert(s[b] == '[' && s[b + 1] == 'i' && s[b + 3] == '=');
    assert(s[b + 4 + nd] == ',' && s[b + 5 + nd] == ' ');
    assert(s[b + 10 + nd] == '=');
    assert(s[b + 11 + nd + nk] == ']');
    lemma_skip_ws_run(s, i, b);
    assert(p_attrs_opt(s, i) == p_attr_list(s, i));
    lemma_char_at(s, i, b, '[');
    lemma_char_not_at(s, b + 1, b + 1, ']');
    let idtok = seq!['i', 'd'];
    assert forall|k: int| 0 <= k < 2 implies #[trigger] idtok[k] == ed[1 + k] by {}
    lemma_subrange_matches(s, b, 1, idtok, ed);
    lemma_ident_at(s, b + 1, b + 1, idtok);
    lemma_char_at(s, b + 3, b + 3, '=');
    assert forall|k: int| 0 <= k < nd implies #[trigger] dec[k] == ed[4 + k] by {}
    lemma_subrange_matches(s, b, 4, dec, ed);
    lemma_value_at(s, b + 4, b + 4, dec);
    assert(p_attr(s, b + 1) == Some(((idtok, dec), b + 4 + nd)));
    lemma_char_at(s, b + 4 + nd, b + 4 + nd, ',');
    let kindtok = seq!['k', 'i', 'n', 'd'];
    assert forall|k: int| 0 <= k < 4 implies #[trigger] kindtok[k] == ed[6 + nd + k] by {}
    lemma_subrange_matches(s, b, 6 + nd, kindtok, ed);
    lemma_ident_at(s, b + 5 + nd, b + 6 + nd, kindtok);
    lemma_char_at(s, b + 10 + nd, b + 10 + nd, '=');
    assert forall|k: int| 0 <= k < nk implies #[trigger] kc[k] == ed[11 + nd + k] by {}
    lemma_subrange_matches(s, b, 11 + nd, kc, ed);
    lemma_value_at(s, b + 11 + nd, b + 11 + nd, kc);
    assert(p_attr(s, b + 5 + nd) == Some(((kindtok, kc), b + 11 + nd + nk)));
    lemma_char_not_at(s, b + 11 + nd + nk, b + 11 + nd + nk, ',');
    lemma_char_at(s, b + 11 + nd + nk, b + 11 + nd + nk, ']');
    assert(p_attr_rest(s, b + 11 + nd + nk) == Some((
        Seq::<(Seq<char>, Seq<char>)>::empty(),
        b + 12 + nd + nk,
    )));
    assert(p_attr_rest(s, b + 4 + nd) == Some((
        seq![(kindtok, kc)] + Seq::<(Seq<char>, Seq<char>)>::empty(),
        b + 12 + nd + nk,
    )));
    assert(seq![(idtok, dec)] + (seq![(kindtok, kc)] + Seq::<(Seq<char>, Seq<char>)>::empty())
        =~= spec_def_of(d).attrs);
    assert(p_attr_list(s, i) == Some((spec_def_of(d).attrs, b + 12 + nd + nk)));
}

/// One emitted definition, possibly after whitespace, parses to its parse
/// tree and ends just before its trailing newline.
#[verifier::rlimit(100)]
proof fn lemma_def_parses(s: Seq<char>, i: int, b: int, d: SyscallDef)
    requires
        0 <= i <= b,
        b + emit_def(d).len() <= s.len(),
        forall|k: int| i <= k < b ==> is_ws(#[trigger] s[k]),
        s.subrange(b, b + emit_def(d).len() as int) == emit_def(d),
        loadable_def(d),
    ensures
        p_def(s, i) == Some((spec_def_of(d), b + emit_def(d).len() - 1)),
{
    let ed = emit_def(d);
    let el = ed.len() as int;
    let dec = dec_seq(d.id.0 as int);
    let nd = dec.len() as int;
    let kc = kind_chars(d.strategy);
    let nk = kc.len() as int;
    let name = d.name@;
    let nn = name.len() as int;
    let efs = emit_fields(d.body.fields@);
    let nf = efs.len() as int;
    // layout: [id= dec , _ kind= kc ] _ name _ { \n fields } \n
    assert(el == 18 + nd + nk + nn + nf);
    lemma_def_attrs_parse(s, i, b, d);
    lemma_text_char(s, b, ed, 12 + nd + nk);
    lemma_text_char(s, b, ed, 13 + nd + nk + nn);
    lemma_text_char(s, b, ed, 14 + nd + nk + nn);
    lemma_text_char(s, b, ed, 15 + nd + nk + nn);
    lemma_text_char(s, b, ed, 16 + nd + nk + nn + nf);
    assert(s[b + 12 + nd + nk] == ' ');
    assert(s[b + 13 + nd + nk + nn] == ' ' && s[b + 14 + nd + nk + nn] == '{' && s[b + 15 + nd + nk
        + nn] == '\n');
    assert(s[b + 16 + nd + nk + nn + nf] == '}');
    // the name and the braced body
    assert forall|k: int| 0 <= k < nn implies #[trigger] name[k] == ed[13 + nd + nk + k] by {}
    lemma_subrange_matches(s, b, 13 + nd + nk, name, ed);
    lemma_ident_at(s, b + 12 + nd + nk, b + 13 + nd + nk, name);
    lemma_char_at(s, b + 13 + nd + nk + nn, b + 14 + nd + nk + nn, '{');
    assert forall|k: int| 0 <= k < nf implies #[trigger] efs[k] == ed[16 + nd + nk + nn + k] by {}
    lemma_subrange_matches(s, b, 16 + nd + nk + nn, efs, ed);
    lemma_fields_parse(s, b + 15 + nd + nk + nn, b + 16 + nd + nk + nn, d.body.fields@);
    lemma_char_at(
        s,
        b + 16 + nd + nk + nn + nf,
        b + 16 + nd + nk + nn + nf,
        '}',
    );
    assert(p_def(s, i) == Some((spec_def_of(d), b + 17 + nd + nk + nn + nf)));
}

/// Every definition of the schema is loadable.
pub open spec fn loadable(h: Hir) -> bool {
    forall|i: int| 0 <= i < h.defs@.len() ==> loadable_def(def_of(#[trigger] h.defs@[i]))
}

/// A run of emitted definitions, possibly after whitespace and ending the
/// text, parses to its parse trees.
#[verifier::rlimit(50)]
proof fn lemma_defs_parse(s: Seq<char>, i: int, b: int, defs: Seq<ItemDef>)
    requires
        0 <= i <= b,
        b + emit_defs(defs).len() == s.len(),
        forall|k: int| i <= k < b ==> is_ws(#[trigger] s[k]),
        s.subrange(b, b + emit_defs(defs).len() as int) == emit_defs(defs),
        forall|j: int| 0 <= j < defs.len() ==> loadable_def(def_of(#[trigger] defs[j])),
    ensures
        p_defs(s, i) matches Some(r) && r.0 == defs.map_values(
            |it: ItemDef| spec_def_of(def_of(it)),
        ),
    decreases defs.len(),
{
    let eds = emit_defs(defs);
    let el = eds.len() as int;
    assert forall|k: int| 0 <= k < el implies s[b + k] == eds[k] by {
        assert(s.subrange(b, b + el)[k] == s[b + k]);
    }
    if defs.len() == 0 {
        lemma_skip_ws_run(s, i, s.len() as int);
        assert(defs.map_values(|it: ItemDef| spec_def_of(def_of(it))) =~= Seq::<
            crate::magic::parse_tree::SpecDef,
        >::empty());
    } else {
        let d0 = def_of(defs[0]);
        let ed0 = emit_def(d0);
        let e0 = ed0.len() as int;
        let rest = defs.drop_first();
        let edr = emit_defs(rest);
        assert(eds == ed0 + edr);
        lemma_emit_def_ends(d0);
        lemma_text_char(s, b, eds, 0);
        assert(s[b] == eds[0] && eds[0] == ed0[0]);
        assert(s[b] == '[');
        lemma_skip_ws_run(s, i, b);
        assert forall|m: int| 0 <= m < e0 implies #[trigger] ed0[m] == eds[m] by {}
        lemma_subrange_matches(s, b, 0, ed0, eds);
        lemma_def_parses(s, i, b, d0);
        let k = b + e0 - 1;
        lemma_text_char(s, b, eds, e0 - 1);
        assert(s[k] == eds[e0 - 1] && eds[e0 - 1] == ed0[e0 - 1] && ed0[e0 - 1] == ed0.last());
        assert(s[k] == '\n');
        assert forall|m: int| 0 <= m < edr.len() implies #[trigger] edr[m] == eds[e0 + m] by {}
        lemma_subrange_matches(s, b, e0, edr, eds);
        lemma_defs_parse(s, k, b + e0, rest);
        assert(seq![spec_def_of(d0)] + rest.map_values(|it: ItemDef| spec_def_of(def_of(it)))
            =~= defs.map_values(|it: ItemDef| spec_def_of(def_of(it))));
    }
}

// ---------------------------------------------------------------------------
// Any schema the loader accepts is loadable: every token of its definitions
// came out of the lexer, so it lexes back. The lemmas below walk the parser
// once more, showing that each parsed token has its character class's shape.

/// Every attribute of a parsed list is a shaped key and a shaped value.
spec fn attrs_shaped(attrs: Seq<(Seq<char>, Seq<char>)>) -> bool {
    forall|k: int|
        0 <= k < attrs.len() ==> ident_shaped((#[trigger] attrs[k]).0) && value_shaped(attrs[k].1)
}

spec fn field_shaped(f: SpecField) -> bool {
    attrs_shaped(f.attrs) && ident_shaped(f.name) && ident_shaped(f.ty)
}

spec fn def_shaped(d: SpecDef) -> bool {
    &&& attrs_shaped(d.attrs)
    &&& ident_shaped(d.name)
    &&& forall|j: int| 0 <= j < d.fields.len() ==> field_shaped(#[trigger] d.fields[j])
}

proof fn lemma_p_char_bounds(s: Seq<char>, i: int, c: char)
    requires
        0 <= i <= s.len(),
    ensures
        p_char(s, i, c) matches Some(j) ==> i < j <= s.len(),
{
    lemma_skip_ws_bounds(s, i);
}

proof fn lemma_p_ident_shaped(s: Seq<char>, i: int)
    requires
        0 <= i <= s.len(),
    ensures
        p_ident(s, i) matches Some(r) ==> ident_shaped(r.0),
{
    lemma_skip_ws_bounds(s, i);
    let j = skip_ws(s, i);
    if j < s.len() && is_ident_start(s[j]) {
        let e = scan_ident(s, j);
        lemma_scan_ident_bounds(s, j + 1);
        lemma_scan_ident_chars(s, j);
        let t = s.subrange(j, e);
        assert(t[0] == s[j]);
        assert forall|k: int| 0 <= k < t.len() implies is_ident_char(#[trigger] t[k]) by {
            assert(t[k] == s[j + k]);
        }
    }
}

proof fn lemma_p_value_shaped(s: Seq<char>, i: int)
    requires
        0 <= i <= s.len(),
    ensures
        p_value(s, i) matches Some(r) ==> value_shaped(r.0),
{
    lemma_skip_ws_bounds(s, i);
    let j = skip_ws(s, i);
    if j < s.len() && is_value_char(s[j]) {
        let e = scan_value(s, j);
        lemma_scan_value_bounds(s, j + 1);
        lemma_scan_value_chars(s, j);
        let t = s.subrange(j, e);
        assert(t[0] == s[j]);
        assert forall|k: int| 0 <= k < t.len() implies is_value_char(#[trigger] t[k]) by {
            assert(t[k] == s[j + k]);
        }
    }
}

proof fn lemma_attrs_shaped_cons(a: (Seq<char>, Seq<char>), rest: Seq<(Seq<char>, Seq<char>)>)
    requires
        ident_shaped(a.0),
        value_shaped(a.1),
        attrs_shaped(rest),
    ensures
        attrs_shaped(seq![a] + rest),
{
    assert forall|m: int| 0 <= m < (seq![a] + rest).len() implies ident_shaped(
        (#[trigger] (seq![a] + rest)[m]).0,
    ) && value_shaped((seq![a] + rest)[m].1) by {
        if m == 0 {
            assert((seq![a] + rest)[0] == a);
        } else {
            assert((seq![a] + rest)[m] == rest[m - 1]);
        }
    }
}

proof fn lemma_p_attr_shaped(s: Seq<char>, i: int)
    requires
        0 <= i <= s.len(),
    ensures
        p_attr(s, i) matches Some(r) ==> ident_shaped(r.0.0) && value_shaped(r.0.1) && i < r.1
            <= s.len(),
{
    lemma_p_ident_shaped(s, i);
    lemma_p_ident_bounds(s, i);
    match p_ident(s, i) {
        None => {},
        Some((_k, j)) => {
            lemma_p_char_bounds(s, j, '=');
            match p_char(s, j, '=') {
                None => {},
                Some(j2) => {
                    lemma_p_value_shaped(s, j2);
                    lemma_p_value_bounds(s, j2);
                },
            }
        },
    }
}

proof fn lemma_p_attr_rest_shaped(s: Seq<char>, i: int)
    requires
        0 <= i <= s.len(),
    ensures
        p_attr_rest(s, i) matches Some(r) ==> attrs_shaped(r.0) && i < r.1 <= s.len(),
    decreases s.len() - i,
{
    lemma_p_char_bounds(s, i, ',');
    lemma_p_char_bounds(s, i, ']');
    match p_char(s, i, ',') {
        None => {},
        Some(j) => {
            lemma_p_attr_shaped(s, j);
            match p_attr(s, j) {
                None => {},
                Some((a, k)) => {
                    if i < k && k <= s.len() {
                        lemma_p_attr_rest_shaped(s, k);
                        match p_attr_rest(s, k) {
                            None => {},
                            Some((rest, _e)) => {
                                lemma_attrs_shaped_cons(a, rest);
                            },
                        }
                    }
                },
            }
        },
    }
}

proof fn lemma_p_attr_list_shaped(s: Seq<char>, i: int)
    requires
        0 <= i <= s.len(),
    ensures
        p_attr_list(s, i) matches Some(r) ==> attrs_shaped(r.0) && i < r.1 <= s.len(),
{
    lemma_p_char_bounds(s, i, '[');
    match p_char(s, i, '[') {
        None => {},
        Some(j) => {
            lemma_p_char_bounds(s, j, ']');
            match p_char(s, j, ']') {
                Some(_) => {},
                None => {
                    lemma_p_attr_shaped(s, j);
                    match p_attr(s, j) {
                        None => {},
                        Some((a, k)) => {
                            lemma_p_attr_rest_shaped(s, k);
                            match p_attr_rest(s, k) {
                                None => {},
                                Some((rest, _e)) => {
                                    lemma_attrs_shaped_cons(a, rest);
                                },
                            }
                        },
                    }
                },
            }
        },
    }
}

proof fn lemma_p_attrs_opt_shaped(s: Seq<char>, i: int)
    requires
        0 <= i <= s.len(),
    ensures
        p_attrs_opt(s, i) matches Some(r) ==> attrs_shaped(r.0) && i <= r.1 <= s.len(),
{
    lemma_skip_ws_bounds(s, i);
    let j = skip_ws(s, i);
    if j < s.len() && s[j] == '[' {
        lemma_p_attr_list_shaped(s, i);
    }
}

proof fn lemma_p_field_shaped(s: Seq<char>, i: int)
    requires
        0 <= i <= s.len(),
    ensures
        p_field(s, i) matches Some(r) ==> field_shaped(r.0) && i < r.1 <= s.len(),
{
    lemma_p_attrs_opt_shaped(s, i);
    match p_attrs_opt(s, i) {
        None => {},
        Some((_attrs, j)) => {
            lemma_p_ident_shaped(s, j);
            lemma_p_ident_bounds(s, j);
            match p_ident(s, j) {
                None => {},
                Some((_name, k)) => {
                    lemma_p_char_bounds(s, k, ':');
                    match p_char(s, k, ':') {
                        None => {},
                        Some(k2) => {
                            lemma_p_ident_shaped(s, k2);
                            lemma_p_ident_bounds(s, k2);
                            match p_ident(s, k2) {
                                None => {},
                                Some((_ty, k3)) => {
                                    lemma_p_char_bounds(s, k3, ';');
                                },
                            }
                        },
                    }
                },
            }
        },
    }
}

proof fn lemma_p_fields_shaped(s: Seq<char>, i: int)
    requires
        0 <= i <= s.len(),
    ensures
        p_fields(s, i) matches Some(r) ==> (forall|m: int|
            0 <= m < r.0.len() ==> field_shaped(#[trigger] r.0[m])) && i <= r.1 <= s.len(),
    decreases s.len() - i,
{
    lemma_skip_ws_bounds(s, i);
    let j = skip_ws(s, i);
    if j < s.len() && s[j] == '}' {
    } else {
        lemma_p_field_shaped(s, i);
        match p_field(s, i) {
            None => {},
            Some((f, k)) => {
                if i < k && k <= s.len() {
                    lemma_p_fields_shaped(s, k);
                    match p_fields(s, k) {
                        None => {},
                        Some((fs, _e)) => {
                            assert forall|m: int| 0 <= m < (seq![f] + fs).len() implies field_shaped(
                                #[trigger] (seq![f] + fs)[m],
                            ) by {
                                if m == 0 {
                                    assert((seq![f] + fs)[0] == f);
                                } else {
                                    assert((seq![f] + fs)[m] == fs[m - 1]);
                                }
                            }
                        },
                    }
                }
            },
        }
    }
}

proof fn lemma_p_def_shaped(s: Seq<char>, i: int)
    requires
        0 <= i <= s.len(),
    ensures
        p_def(s, i) matches Some(r) ==> def_shaped(r.0) && i < r.1 <= s.len(),
{
    lemma_p_attrs_opt_shaped(s, i);
    match p_attrs_opt(s, i) {
        None => {},
        Some((_attrs, j)) => {
            lemma_p_ident_shaped(s, j);
            lemma_p_ident_bounds(s, j);
            match p_ident(s, j) {
                None => {},
                Some((_name, k)) => {
                    lemma_p_char_bounds(s, k, '{');
                    match p_char(s, k, '{') {
                        None => {},
                        Some(k2) => {
                            lemma_p_fields_shaped(s, k2);
                            match p_fields(s, k2) {
                                None => {},
                                Some((_fields, k3)) => {
                                    lemma_p_char_bounds(s, k3, '}');
                                },
                            }
                        },
                    }
                },
            }
        },
    }
}

proof fn lemma_p_defs_shaped(s: Seq<char>, i: int)
    requires
        0 <= i <= s.len(),
    ensures
        p_defs(s, i) matches Some(r) ==> forall|m: int|
            0 <= m < r.0.len() ==> def_shaped(#[trigger] r.0[m]),
    decreases s.len() - i,
{
    lemma_skip_ws_bounds(s, i);
    let j = skip_ws(s, i);
    if j >= s.len() {
    } else {
        lemma_p_def_shaped(s, i);
        match p_def(s, i) {
            None => {},
            Some((d, k)) => {
                if i < k && k <= s.len() {
                    lemma_p_defs_shaped(s, k);
                    match p_defs(s, k) {
                        None => {},
                        Some((ds2, _e)) => {
                            assert forall|m: int| 0 <= m < (seq![d] + ds2).len() implies def_shaped(
                                #[trigger] (seq![d] + ds2)[m],
                            ) by {
                                if m == 0 {
                                    assert((seq![d] + ds2)[0] == d);
                                } else {
                                    assert((seq![d] + ds2)[m] == ds2[m - 1]);
                                }
                            }
                        },
                    }
                }
            },
        }
    }
}

proof fn lemma_attr_lookup_shaped(attrs: Seq<(Seq<char>, Seq<char>)>, key: Seq<char>)
    requires
        attrs_shaped(attrs),
    ensures
        attr_lookup(attrs, key) matches Some(v) ==> value_shaped(v),
    decreases attrs.len(),
{
    if attrs.len() > 0 && attrs[0].0 != key {
        assert forall|m: int| 0 <= m < attrs.drop_first().len() implies ident_shaped(
            (#[trigger] attrs.drop_first()[m]).0,
        ) && value_shaped(attrs.drop_first()[m].1) by {
            assert(attrs.drop_first()[m] == attrs[m + 1]);
        }
        lemma_attr_lookup_shaped(attrs.drop_first(), key);
    }
}

proof fn lemma_split_sep_nonempty(s: Seq<char>)
    ensures
        crate::magic::hir::lower::split_sep(s).len() >= 1,
{
    match crate::magic::hir::lower::find_sep(s, 0) {
        None => {},
        Some(_k) => {},
    }
}

/// Splitting a text on `::` and rejoining the segments yields it back.
proof fn lemma_join_split(s: Seq<char>)
    ensures
        join_sep(crate::magic::hir::lower::split_sep(s)) == s,
    decreases s.len(),
{
    crate::magic::hir::lower::lemma_find_sep_props(s, 0);
    match crate::magic::hir::lower::find_sep(s, 0) {
        None => {
            assert(join_sep(seq![s]) == s);
        },
        Some(k) => {
            let head = s.subrange(0, k);
            let tail = s.subrange(k + 2, s.len() as int);
            lemma_join_split(tail);
            lemma_split_sep_nonempty(tail);
            let rest = crate::magic::hir::lower::split_sep(tail);
            let segs = seq![head] + rest;
            assert(crate::magic::hir::lower::split_sep(s) == segs);
            assert(segs[0] == head);
            assert(segs.drop_first() =~= rest);
            assert(join_sep(segs) == head + seq![':', ':'] + join_sep(rest));
            assert(head + seq![':', ':'] + tail =~= s);
        },
    }
}

proof fn lemma_strategy_has_side(attrs: Seq<(Seq<char>, Seq<char>)>)
    ensures
        crate::magic::hir::lower::strategy_spec(attrs) matches Some(st) ==> st.on_enter
            || st.on_exit,
{
}

proof fn lemma_no_unknown_all_primitive(fields: Seq<SpecField>)
    requires
        crate::magic::first_unknown_ty(fields) is None,
    ensures
        forall|j: int|
            0 <= j < fields.len() ==> crate::magic::is_primitive_name((#[trigger] fields[j]).ty),
    decreases fields.len(),
{
    if fields.len() > 0 {
        lemma_no_unknown_all_primitive(fields.drop_first());
        assert forall|j: int| 0 <= j < fields.len() implies crate::magic::is_primitive_name(
            (#[trigger] fields[j]).ty,
        ) by {
            if j > 0 {
                assert(fields[j] == fields.drop_first()[j - 1]);
            }
        }
    }
}

proof fn lemma_validate_all_none(ds: Seq<SpecDef>)
    requires
        crate::magic::first_validate_err(ds) is None,
    ensures
        forall|i: int|
            0 <= i < ds.len() ==> crate::magic::validate_def_err(#[trigger] ds[i]) is None,
    decreases ds.len(),
{
    if ds.len() > 0 {
        lemma_validate_all_none(ds.drop_first());
        assert forall|i: int| 0 <= i < ds.len() implies crate::magic::validate_def_err(
            #[trigger] ds[i],
        ) is None by {
            if i > 0 {
                assert(ds[i] == ds.drop_first()[i - 1]);
            }
        }
    }
}

/// A parsed, validated and lowered definition is loadable.
proof fn lemma_lowered_def_loadable(sd: SpecDef, d: SyscallDef)
    requires
        def_shaped(sd),
        crate::magic::hir::lower::lowered_def_ok(sd, d),
        crate::magic::validate_def_err(sd) is None,
    ensures
        loadable_def(d),
{
    lemma_strategy_has_side(sd.attrs);
    lemma_no_unknown_all_primitive(sd.fields);
    assert forall|j: int| 0 <= j < d.body.fields@.len() implies loadable_field(
        #[trigger] d.body.fields@[j],
    ) by {
        let f = d.body.fields@[j];
        let sf = sd.fields[j];
        assert(crate::magic::hir::lower::lowered_field_ok(sf, f));
        assert(field_shaped(sf));
        assert(crate::magic::is_primitive_name(sf.ty));
        if f.ty_info.len_ref@.len() > 0 {
            let m = f.ty_info.len_ref@.map_values(|x: String| x@);
            match attr_lookup(sf.attrs, "len"@) {
                Some(v) => {
                    lemma_attr_lookup_shaped(sf.attrs, "len"@);
                    lemma_join_split(v);
                    assert(join_sep(m) == v);
                    assert(crate::magic::hir::lower::split_sep(join_sep(m)) == m);
                },
                None => {
                    assert(m.len() == 0);
                    assert(false);
                },
            }
        }
    }
}

/// Any schema the loader accepts is loadable, so the round trip holds of a
/// loaded schema with no further hypothesis.
pub proof fn lemma_loaded_loadable(s: Seq<char>, ds: Seq<SpecDef>, h: Hir)
    requires
        crate::magic::parse_tree::parse_spec(s) == Some(ds),
        crate::magic::first_validate_err(ds) is None,
        crate::magic::loaded_ok(ds, h),
    ensures
        loadable(h),
{
    lemma_p_defs_shaped(s, 0);
    lemma_validate_all_none(ds);
    assert forall|i: int| 0 <= i < h.defs@.len() implies loadable_def(
        def_of(#[trigger] h.defs@[i]),
    ) by {
        lemma_lowered_def_loadable(ds[i], def_of(h.defs@[i]));
    }
}

/// What reloading preserves of a definition: the id, the name, the strategy,
/// and the fields' names, type names and length paths.
pub open spec fn def_equiv(a: SyscallDef, b: SyscallDef) -> bool {
    &&& a.id == b.id
    &&& a.name@ == b.name@
    &&& a.strategy == b.strategy
    &&& a.body.fields@.len() == b.body.fields@.len()
    &&& forall|j: int|
        0 <= j < a.body.fields@.len() ==> (#[trigger] a.body.fields@[j]).name@
            == b.body.fields@[j].name@ && a.body.fields@[j].ty_info.ty_name@
            == b.body.fields@[j].ty_info.ty_name@ && a.body.fields@[j].ty_info.len_ref@.map_values(
            |x: String| x@,
        ) == b.body.fields@[j].ty_info.len_ref@.map_values(|x: String| x@)
}

/// What lowering an emitted definition's parse tree must yield.
proof fn lemma_spec_def_lowers_back(d: SyscallDef)
    requires
        loadable_def(d),
    ensures
        crate::magic::hir::lower::lower_def_err(spec_def_of(d)) is None,
        forall|out: SyscallDef|
            crate::magic::hir::lower::lowered_def_ok(spec_def_of(d), out) ==> #[trigger] def_equiv(
                d,
                out,
            ),
        crate::magic::validate_def_err(spec_def_of(d)) == crate::magic::first_unknown_ty(
            spec_def_of(d).fields,
        ) || crate::magic::validate_def_err(spec_def_of(d)) == Some(
            crate::magic::hir::lower::MagicError::BadArity,
        ),
{
    let sd = spec_def_of(d);
    proof_attrs_of_spec_def(d);
    lemma_dec_seq_parses(d.id.0);
    reveal_strlit("len");
    assert forall|out: SyscallDef|
        crate::magic::hir::lower::lowered_def_ok(sd, out) implies #[trigger] def_equiv(
        d,
        out,
    ) by {
        assert(out.id.0 == d.id.0);
        assert(out.id == d.id);
        assert forall|j: int| 0 <= j < d.body.fields@.len() implies (
        #[trigger] out.body.fields@[j]).name@ == d.body.fields@[j].name@
            && out.body.fields@[j].ty_info.ty_name@ == d.body.fields@[j].ty_info.ty_name@
            && out.body.fields@[j].ty_info.len_ref@.map_values(|x: String| x@)
            == d.body.fields@[j].ty_info.len_ref@.map_values(|x: String| x@) by {
            let f = d.body.fields@[j];
            let m = f.ty_info.len_ref@.map_values(|x: String| x@);
            assert(sd.fields[j] == spec_field_of(f));
            assert(crate::magic::hir::lower::lowered_field_ok(sd.fields[j], out.body.fields@[j]));
            assert(loadable_field(f));
            if f.ty_info.len_ref@.len() > 0 {
                assert("len"@ =~= seq!['l', 'e', 'n']);
                assert(spec_field_of(f).attrs[0].0 == "len"@);
                assert(attr_lookup(spec_field_of(f).attrs, "len"@) == Some(join_sep(m)));
                assert(out.body.fields@[j].ty_info.len_ref@.map_values(|x: String| x@)
                    == crate::magic::hir::lower::split_sep(join_sep(m)));
            } else {
                assert(m =~= Seq::<Seq<char>>::empty());
            }
        }
        assert(def_equiv(d, out));
    }
}

/// The attribute lookups on an emitted definition's parse tree.
proof fn proof_attrs_of_spec_def(d: SyscallDef)
    requires
        loadable_def(d),
    ensures
        crate::magic::parse_tree::attr_lookup(spec_def_of(d).attrs, "id"@) == Some(
            dec_seq(d.id.0 as int),
        ),
        crate::magic::hir::lower::strategy_spec(spec_def_of(d).attrs) == Some(d.strategy),
{
    reveal_strlit("id");
    reveal_strlit("kind");
    reveal_strlit("in");
    reveal_strlit("out");
    reveal_strlit("inout");
    let attrs = spec_def_of(d).attrs;
    assert("id"@ =~= seq!['i', 'd']);
    assert("kind"@ =~= seq!['k', 'i', 'n', 'd']);
    assert(attrs[0].0 == "id"@);
    assert(crate::magic::parse_tree::attr_lookup(attrs, "id"@) == Some(attrs[0].1));
    assert(attrs[0].0 != "kind"@);
    assert(attrs.drop_first() =~= seq![(seq!['k', 'i', 'n', 'd'], kind_chars(d.strategy))]);
    assert("id"@.len() == 2 && "kind"@.len() == 4);
    assert(crate::magic::parse_tree::attr_lookup(attrs, "kind"@)
        == crate::magic::parse_tree::attr_lookup(attrs.drop_first(), "kind"@));
    assert(attrs.drop_first()[0].0 == "kind"@);
    assert(crate::magic::parse_tree::attr_lookup(attrs, "kind"@) == Some(kind_chars(d.strategy)));
    if d.strategy.on_enter && d.strategy.on_exit {
        assert(kind_chars(d.strategy) =~= "inout"@);
        assert(kind_chars(d.strategy) != "in"@ && kind_chars(d.strategy) != "out"@);
    } else if d.strategy.on_enter {
        assert(kind_chars(d.strategy) =~= "in"@);
    } else {
        assert(kind_chars(d.strategy) =~= "out"@);
        assert(kind_chars(d.strategy) != "in"@);
    }
}

/// Round trip, parsing half: the emitted text of a well-formed, loadable
/// schema is grammatical, loads without error, and lowering its parse yields
/// definitions equivalent to the original's: equal id, name, strategy, field
/// names and type names.
pub proof fn lemma_serialize_round_trip(h: Hir)
    requires
        crate::magic::hir::schema_wf(h),
        loadable(h),
    ensures
        crate::magic::parse_tree::parse_spec(emit_defs(h.defs@)) matches Some(ds) && ds.len()
            == h.defs@.len() && (forall|i: int|
            0 <= i < h.defs@.len() ==> ds[i] == spec_def_of(def_of(#[trigger] h.defs@[i]))),
        crate::magic::init_err(emit_defs(h.defs@)) is None,
{
    let text = emit_defs(h.defs@);
    assert(text.subrange(0, text.len() as int) =~= text);
    lemma_defs_parse(text, 0, 0, h.defs@);
    let ds = h.defs@.map_values(|it: ItemDef| spec_def_of(def_of(it)));
    assert(crate::magic::parse_tree::parse_spec(text) == Some(ds));
    assert forall|i: int| 0 <= i < h.defs@.len() implies crate::magic::hir::lower::lower_def_err(
        #[trigger] ds[i],
    ) is None && crate::magic::validate_def_err(ds[i]) is None by {
        let d = def_of(h.defs@[i]);
        lemma_spec_def_lowers_back(d);
        assert(ds[i] == spec_def_of(d));
        assert(crate::magic::hir::def_wf(h.types, d));
        assert(spec_def_of(d).fields.len() == d.body.fields@.len());
        lemma_no_unknown_tys(spec_def_of(d).fields, d);
    }
    lemma_all_lower_ok(ds);
    lemma_all_validate_ok(ds);
}

/// An emitted definition's fields all carry known type names.
proof fn lemma_no_unknown_tys(fields: Seq<crate::magic::parse_tree::SpecField>, d: SyscallDef)
    requires
        loadable_def(d),
        fields.len() <= d.body.fields@.len(),
        forall|j: int|
            0 <= j < fields.len() ==> #[trigger] fields[j] == spec_field_of(
                d.body.fields@[d.body.fields@.len() - fields.len() + j],
            ),
    ensures
        crate::magic::first_unknown_ty(fields) is None,
    decreases fields.len(),
{
    if fields.len() > 0 {
        assert(fields[0] == spec_field_of(
            d.body.fields@[d.body.fields@.len() - fields.len() as int],
        ));
        assert(crate::magic::is_primitive_name(fields[0].ty));
        assert forall|j: int| 0 <= j < fields.drop_first().len() implies #[trigger] fields.drop_first()[j]
            == spec_field_of(
            d.body.fields@[d.body.fields@.len() - fields.drop_first().len() + j],
        ) by {
            assert(fields.drop_first()[j] == fields[j + 1]);
        }
        lemma_no_unknown_tys(fields.drop_first(), d);
    }
}

proof fn lemma_all_lower_ok(ds: Seq<crate::magic::parse_tree::SpecDef>)
    requires
        forall|i: int|
            0 <= i < ds.len() ==> crate::magic::hir::lower::lower_def_err(#[trigger] ds[i]) is None,
    ensures
        crate::magic::hir::lower::first_lower_err(ds) is None,
    decreases ds.len(),
{
    if ds.len() > 0 {
        assert forall|i: int| 0 <= i < ds.drop_first().len() implies
            crate::magic::hir::lower::lower_def_err(#[trigger] ds.drop_first()[i]) is None by {
            assert(ds.drop_first()[i] == ds[i + 1]);
        }
        lemma_all_lower_ok(ds.drop_first());
    }
}

proof fn lemma_all_validate_ok(ds: Seq<crate::magic::parse_tree::SpecDef>)
    requires
        forall|i: int|
            0 <= i < ds.len() ==> crate::magic::validate_def_err(#[trigger] ds[i]) is None,
    ensures
        crate::magic::first_validate_err(ds) is None,
    decreases ds.len(),
{
    if ds.len() > 0 {
        assert forall|i: int| 0 <= i < ds.drop_first().len() implies crate::magic::validate_def_err(
            #[trigger] ds.drop_first()[i],
        ) is None by {
            assert(ds.drop_first()[i] == ds[i + 1]);
        }
        lemma_all_validate_ok(ds.drop_first());
    }
}

/// Round trip, reloading half: any schema the loader builds from the emitted
/// text is equivalent to the original, definition by definition.
pub proof fn lemma_reload_equivalent(h: Hir, h2: Hir)
    requires
        crate::magic::hir::schema_wf(h),
        loadable(h),
        (match crate::magic::parse_tree::parse_spec(emit_defs(h.defs@)) {
            Some(ds) => crate::magic::loaded_ok(ds, h2),
            None => false,
        }),
    ensures
        h2.defs@.len() == h.defs@.len(),
        forall|i: int|
            0 <= i < h.defs@.len() ==> def_equiv(
                def_of(#[trigger] h.defs@[i]),
                def_of(h2.defs@[i]),
            ),
{
    lemma_serialize_round_trip(h);
    let ds = h.defs@.map_values(|it: ItemDef| spec_def_of(def_of(it)));
    assert(crate::magic::parse_tree::parse_spec(emit_defs(h.defs@)) == Some(ds));
    assert forall|i: int| 0 <= i < h.defs@.len() implies def_equiv(
        def_of(#[trigger] h.defs@[i]),
        def_of(h2.defs@[i]),
    ) by {
        let d = def_of(h.defs@[i]);
        lemma_spec_def_lowers_back(d);
        assert(crate::magic::hir::lower::lowered_def_ok(ds[i], def_of(h2.defs@[i])));
        assert(ds[i] == spec_def_of(d));
    }
}

/// Serialize a schema's syscall definitions into schema text.
pub fn serialize_defs(h: &Hir) -> (r: String)
    ensures
        r@ == emit_defs(h.defs@),
{
    let mut out = String::new();
    let n = h.defs.len();
    let mut i: usize = 0;
    while i < n
        invariant
            0 <= i <= n,
            n == h.defs@.len(),
            out@ == emit_defs(h.defs@.take(i as int)),
        decreases n - i,
    {
        proof {
            lemma_emit_defs_take_step(h.defs@, i as int);
        }
        match &h.defs[i] {
            ItemDef::Syscall(d) => {
                serialize_def(&mut out, d);
            },
        }
        i = i + 1;
    }
    proof {
        assert(h.defs@.take(n as int) =~= h.defs@);
    }
    out
}

} // verus!
