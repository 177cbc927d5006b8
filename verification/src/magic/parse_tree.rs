//! Parse tree of the schema text, and its grammar.
//!
//! The grammar, over characters:
//!
//! ```text
//! input  :=  ws (def ws)* EOF
//! def    :=  attrs? ws ident ws "{" (ws field)* ws "}"
//! field  :=  attrs? ws ident ws ":" ws ident ws ";"
//! attrs  :=  "[" ws "]"  |  "[" ws attr (ws "," ws attr)* ws "]"
//! attr   :=  ident ws "=" ws value
//! ident  :=  [A-Za-z_] [A-Za-z0-9_]*
//! value  :=  [A-Za-z0-9_:]+
//! ws     :=  (" " | "\t" | "\n" | "\r")*
//! ```
//!
//! The grammar is written out twice: once as specification functions over the
//! text's characters, which say what parses and to what, and once as
//! executable functions proved to return exactly what the specification says.

use vstd::prelude::*;

verus! {

// ---------------------------------------------------------------------------
// Character classes.

pub open spec fn is_ws(c: char) -> bool {
    c == ' ' || c == '\t' || c == '\n' || c == '\r'
}

pub open spec fn is_ident_start(c: char) -> bool {
    let u = c as u32;
    ('a' as u32) <= u && u <= ('z' as u32) || ('A' as u32) <= u && u <= ('Z' as u32) || u == (
    '_' as u32)
}

pub open spec fn is_digit(c: char) -> bool {
    let u = c as u32;
    ('0' as u32) <= u && u <= ('9' as u32)
}

pub open spec fn is_ident_char(c: char) -> bool {
    is_ident_start(c) || is_digit(c)
}

pub open spec fn is_value_char(c: char) -> bool {
    is_ident_char(c) || c == ':'
}

fn is_ws_e(c: char) -> (r: bool)
    ensures
        r == is_ws(c),
{
    c == ' ' || c == '\t' || c == '\n' || c == '\r'
}

fn is_ident_start_e(c: char) -> (r: bool)
    ensures
        r == is_ident_start(c),
{
    let u = c as u32;
    ('a' as u32) <= u && u <= ('z' as u32) || ('A' as u32) <= u && u <= ('Z' as u32) || u == (
    '_' as u32)
}

fn is_ident_char_e(c: char) -> (r: bool)
    ensures
        r == is_ident_char(c),
{
    let u = c as u32;
    is_ident_start_e(c) || ('0' as u32) <= u && u <= ('9' as u32)
}

fn is_value_char_e(c: char) -> (r: bool)
    ensures
        r == is_value_char(c),
{
    is_ident_char_e(c) || c == ':'
}

// ---------------------------------------------------------------------------
// The grammar as specification functions. Each takes the text and a position
// and yields what it parsed and the position after it, or nothing when the
// text does not match. Repetitions guard their recursion on progress, which
// the lemmas below show always holds.

/// The first position at or after `i` holding a non-whitespace character.
pub open spec fn skip_ws(s: Seq<char>, i: int) -> int
    decreases s.len() - i,
{
    if 0 <= i < s.len() && is_ws(s[i]) {
        skip_ws(s, i + 1)
    } else {
        i
    }
}

/// The first position at or after `i` holding a non-identifier character.
pub open spec fn scan_ident(s: Seq<char>, i: int) -> int
    decreases s.len() - i,
{
    if 0 <= i < s.len() && is_ident_char(s[i]) {
        scan_ident(s, i + 1)
    } else {
        i
    }
}

/// The first position at or after `i` holding a non-value character.
pub open spec fn scan_value(s: Seq<char>, i: int) -> int
    decreases s.len() - i,
{
    if 0 <= i < s.len() && is_value_char(s[i]) {
        scan_value(s, i + 1)
    } else {
        i
    }
}

pub open spec fn p_ident(s: Seq<char>, i: int) -> Option<(Seq<char>, int)> {
    let j = skip_ws(s, i);
    if j < s.len() && is_ident_start(s[j]) {
        let e = scan_ident(s, j);
        Some((s.subrange(j, e), e))
    } else {
        None
    }
}

pub open spec fn p_value(s: Seq<char>, i: int) -> Option<(Seq<char>, int)> {
    let j = skip_ws(s, i);
    if j < s.len() && is_value_char(s[j]) {
        let e = scan_value(s, j);
        Some((s.subrange(j, e), e))
    } else {
        None
    }
}

/// One expected punctuation character, after whitespace.
pub open spec fn p_char(s: Seq<char>, i: int, c: char) -> Option<int> {
    let j = skip_ws(s, i);
    if j < s.len() && s[j] == c {
        Some(j + 1)
    } else {
        None
    }
}

/// One attribute: `key = value`.
pub open spec fn p_attr(s: Seq<char>, i: int) -> Option<((Seq<char>, Seq<char>), int)> {
    match p_ident(s, i) {
        None => None,
        Some((k, j)) => match p_char(s, j, '=') {
            None => None,
            Some(j2) => match p_value(s, j2) {
                None => None,
                Some((v, j3)) => Some(((k, v), j3)),
            },
        },
    }
}

/// The attributes after the first one: `("," attr)* "]"`.
pub open spec fn p_attr_rest(s: Seq<char>, i: int) -> Option<(Seq<(Seq<char>, Seq<char>)>, int)>
    decreases s.len() - i,
{
    match p_char(s, i, ',') {
        Some(j) => match p_attr(s, j) {
            None => None,
            Some((a, k)) => if i < k && k <= s.len() {
                match p_attr_rest(s, k) {
                    None => None,
                    Some((rest, e)) => Some((seq![a] + rest, e)),
                }
            } else {
                None
            },
        },
        None => match p_char(s, i, ']') {
            Some(j) => Some((Seq::empty(), j)),
            None => None,
        },
    }
}

/// A bracketed attribute list.
pub open spec fn p_attr_list(s: Seq<char>, i: int) -> Option<(Seq<(Seq<char>, Seq<char>)>, int)> {
    match p_char(s, i, '[') {
        None => None,
        Some(j) => match p_char(s, j, ']') {
            Some(k) => Some((Seq::empty(), k)),
            None => match p_attr(s, j) {
                None => None,
                Some((a, k)) => match p_attr_rest(s, k) {
                    None => None,
                    Some((rest, e)) => Some((seq![a] + rest, e)),
                },
            },
        },
    }
}

/// An optional attribute list: absent brackets mean no attributes.
pub open spec fn p_attrs_opt(s: Seq<char>, i: int) -> Option<(Seq<(Seq<char>, Seq<char>)>, int)> {
    let j = skip_ws(s, i);
    if j < s.len() && s[j] == '[' {
        p_attr_list(s, i)
    } else {
        Some((Seq::empty(), i))
    }
}

/// A field declaration's parsed form.
pub struct SpecField {
    pub attrs: Seq<(Seq<char>, Seq<char>)>,
    pub name: Seq<char>,
    pub ty: Seq<char>,
}

/// A syscall definition's parsed form.
pub struct SpecDef {
    pub attrs: Seq<(Seq<char>, Seq<char>)>,
    pub name: Seq<char>,
    pub fields: Seq<SpecField>,
}

pub open spec fn p_field(s: Seq<char>, i: int) -> Option<(SpecField, int)> {
    match p_attrs_opt(s, i) {
        None => None,
        Some((attrs, j)) => match p_ident(s, j) {
            None => None,
            Some((name, k)) => match p_char(s, k, ':') {
                None => None,
                Some(k2) => match p_ident(s, k2) {
                    None => None,
                    Some((ty, k3)) => match p_char(s, k3, ';') {
                        None => None,
                        Some(e) => Some((SpecField { attrs, name, ty }, e)),
                    },
                },
            },
        },
    }
}

/// The fields of a body, up to the closing brace (not consumed).
pub open spec fn p_fields(s: Seq<char>, i: int) -> Option<(Seq<SpecField>, int)>
    decreases s.len() - i,
{
    let j = skip_ws(s, i);
    if j < s.len() && s[j] == '}' {
        Some((Seq::empty(), j))
    } else {
        match p_field(s, i) {
            None => None,
            Some((f, k)) => if i < k && k <= s.len() {
                match p_fields(s, k) {
                    None => None,
                    Some((fs, e)) => Some((seq![f] + fs, e)),
                }
            } else {
                None
            },
        }
    }
}

pub open spec fn p_def(s: Seq<char>, i: int) -> Option<(SpecDef, int)> {
    match p_attrs_opt(s, i) {
        None => None,
        Some((attrs, j)) => match p_ident(s, j) {
            None => None,
            Some((name, k)) => match p_char(s, k, '{') {
                None => None,
                Some(k2) => match p_fields(s, k2) {
                    None => None,
                    Some((fields, k3)) => match p_char(s, k3, '}') {
                        None => None,
                        Some(e) => Some((SpecDef { attrs, name, fields }, e)),
                    },
                },
            },
        },
    }
}

/// The definitions of the whole text, up to its end.
pub open spec fn p_defs(s: Seq<char>, i: int) -> Option<(Seq<SpecDef>, int)>
    decreases s.len() - i,
{
    let j = skip_ws(s, i);
    if j >= s.len() {
        Some((Seq::empty(), j))
    } else {
        match p_def(s, i) {
            None => None,
            Some((d, k)) => if i < k && k <= s.len() {
                match p_defs(s, k) {
                    None => None,
                    Some((ds, e)) => Some((seq![d] + ds, e)),
                }
            } else {
                None
            },
        }
    }
}

/// What the whole text parses to, if it is grammatical.
pub open spec fn parse_spec(s: Seq<char>) -> Option<Seq<SpecDef>> {
    match p_defs(s, 0) {
        None => None,
        Some((ds, _)) => Some(ds),
    }
}

// ---------------------------------------------------------------------------
// Bounds: scanning stays inside the text, and every token makes progress.

pub proof fn lemma_skip_ws_bounds(s: Seq<char>, i: int)
    requires
        0 <= i <= s.len(),
    ensures
        i <= skip_ws(s, i) <= s.len(),
    decreases s.len() - i,
{
    if i < s.len() && is_ws(s[i]) {
        lemma_skip_ws_bounds(s, i + 1);
    }
}

pub proof fn lemma_scan_ident_bounds(s: Seq<char>, i: int)
    requires
        0 <= i <= s.len(),
    ensures
        i <= scan_ident(s, i) <= s.len(),
    decreases s.len() - i,
{
    if i < s.len() && is_ident_char(s[i]) {
        lemma_scan_ident_bounds(s, i + 1);
    }
}

pub proof fn lemma_scan_value_bounds(s: Seq<char>, i: int)
    requires
        0 <= i <= s.len(),
    ensures
        i <= scan_value(s, i) <= s.len(),
    decreases s.len() - i,
{
    if i < s.len() && is_value_char(s[i]) {
        lemma_scan_value_bounds(s, i + 1);
    }
}

/// Every character a whitespace skip passes over is whitespace.
pub proof fn lemma_skip_ws_chars(s: Seq<char>, i: int)
    requires
        0 <= i <= s.len(),
    ensures
        forall|k: int| i <= k < skip_ws(s, i) ==> is_ws(#[trigger] s[k]),
    decreases s.len() - i,
{
    if i < s.len() && is_ws(s[i]) {
        lemma_skip_ws_chars(s, i + 1);
    }
}

/// Every character of a scanned identifier run is an identifier character.
pub proof fn lemma_scan_ident_chars(s: Seq<char>, i: int)
    requires
        0 <= i <= s.len(),
    ensures
        forall|k: int| i <= k < scan_ident(s, i) ==> is_ident_char(#[trigger] s[k]),
    decreases s.len() - i,
{
    if i < s.len() && is_ident_char(s[i]) {
        lemma_scan_ident_chars(s, i + 1);
    }
}

/// Every character of a scanned value run is a value character.
pub proof fn lemma_scan_value_chars(s: Seq<char>, i: int)
    requires
        0 <= i <= s.len(),
    ensures
        forall|k: int| i <= k < scan_value(s, i) ==> is_value_char(#[trigger] s[k]),
    decreases s.len() - i,
{
    if i < s.len() && is_value_char(s[i]) {
        lemma_scan_value_chars(s, i + 1);
    }
}

pub proof fn lemma_p_ident_bounds(s: Seq<char>, i: int)
    requires
        0 <= i <= s.len(),
    ensures
        p_ident(s, i) matches Some(r) ==> i < r.1 <= s.len(),
{
    lemma_skip_ws_bounds(s, i);
    let j = skip_ws(s, i);
    if j < s.len() && is_ident_start(s[j]) {
        lemma_scan_ident_bounds(s, j + 1);
    }
}

pub proof fn lemma_p_value_bounds(s: Seq<char>, i: int)
    requires
        0 <= i <= s.len(),
    ensures
        p_value(s, i) matches Some(r) ==> i < r.1 <= s.len(),
{
    lemma_skip_ws_bounds(s, i);
    let j = skip_ws(s, i);
    if j < s.len() && is_value_char(s[j]) {
        lemma_scan_value_bounds(s, j + 1);
    }
}

// ---------------------------------------------------------------------------
// The parse tree, and the executable parser.

pub struct Input {
    pub defs: Vec<ItemDef>,
}

pub enum ItemDef {
    Syscall(SyscallDef),
}

pub struct SyscallDef {
    pub attrs: Vec<(String, String)>,
    pub name: String,
    pub body: DefBody,
}

pub struct DefBody {
    pub fields: Vec<FieldDef>,
}

pub struct FieldDef {
    pub attrs: Vec<(String, String)>,
    pub name: String,
    pub ty: String,
}

pub open spec fn attr_view(a: (String, String)) -> (Seq<char>, Seq<char>) {
    (a.0@, a.1@)
}

pub open spec fn attrs_view(a: Seq<(String, String)>) -> Seq<(Seq<char>, Seq<char>)> {
    a.map_values(|x: (String, String)| attr_view(x))
}

pub open spec fn field_view(f: FieldDef) -> SpecField {
    SpecField { attrs: attrs_view(f.attrs@), name: f.name@, ty: f.ty@ }
}

pub open spec fn def_view(d: SyscallDef) -> SpecDef {
    SpecDef {
        attrs: attrs_view(d.attrs@),
        name: d.name@,
        fields: d.body.fields@.map_values(|f: FieldDef| field_view(f)),
    }
}

pub open spec fn item_view(it: ItemDef) -> SpecDef {
    match it {
        ItemDef::Syscall(d) => def_view(d),
    }
}

pub open spec fn input_view(inp: Input) -> Seq<SpecDef> {
    inp.defs@.map_values(|it: ItemDef| item_view(it))
}

impl Input {
    pub fn defs(&self) -> (r: &Vec<ItemDef>)
        ensures
            r@ == self.defs@,
    {
        &self.defs
    }
}

impl SyscallDef {
    pub fn attrs(&self) -> (r: &Vec<(String, String)>)
        ensures
            r@ == self.attrs@,
    {
        &self.attrs
    }

    pub fn name(&self) -> (r: &str)
        ensures
            r@ == self.name@,
    {
        self.name.as_str()
    }

    pub fn def_body(&self) -> (r: &DefBody)
        ensures
            *r == self.body,
    {
        &self.body
    }
}

impl DefBody {
    pub fn fields(&self) -> (r: &Vec<FieldDef>)
        ensures
            r@ == self.fields@,
    {
        &self.fields
    }
}

impl FieldDef {
    pub fn attrs(&self) -> (r: &Vec<(String, String)>)
        ensures
            r@ == self.attrs@,
    {
        &self.attrs
    }

    pub fn name(&self) -> (r: &str)
        ensures
            r@ == self.name@,
    {
        self.name.as_str()
    }

    pub fn ty(&self) -> (r: &str)
        ensures
            r@ == self.ty@,
    {
        self.ty.as_str()
    }
}

impl ItemDef {
    pub fn name(&self) -> (r: &str)
        ensures
            match self {
                ItemDef::Syscall(d) => r@ == d.name@,
            },
    {
        match self {
            ItemDef::Syscall(def) => def.name(),
        }
    }
}

/// The value of the first attribute with the given key.
pub open spec fn attr_lookup(attrs: Seq<(Seq<char>, Seq<char>)>, key: Seq<char>) -> Option<
    Seq<char>,
>
    decreases attrs.len(),
{
    if attrs.len() == 0 {
        None
    } else if attrs[0].0 == key {
        Some(attrs[0].1)
    } else {
        attr_lookup(attrs.drop_first(), key)
    }
}

proof fn lemma_attr_lookup_props(attrs: Seq<(Seq<char>, Seq<char>)>, key: Seq<char>)
    ensures
        match attr_lookup(attrs, key) {
            Some(v) => exists|i: int|
                0 <= i < attrs.len() && #[trigger] attrs[i] == (key, v) && (forall|j: int|
                    #![trigger attrs[j]]
                    0 <= j < i ==> attrs[j].0 != key),
            None => forall|j: int| #![trigger attrs[j]] 0 <= j < attrs.len() ==> attrs[j].0 != key,
        },
    decreases attrs.len(),
{
    if attrs.len() > 0 && attrs[0].0 != key {
        lemma_attr_lookup_props(attrs.drop_first(), key);
        let tail = attrs.drop_first();
        match attr_lookup(attrs, key) {
            Some(v) => {
                let i = choose|i: int|
                    0 <= i < tail.len() && #[trigger] tail[i] == (key, v) && (forall|j: int|
                        #![trigger tail[j]]
                        0 <= j < i ==> tail[j].0 != key);
                assert(attrs[i + 1] == tail[i]);
                assert forall|j: int| #![trigger attrs[j]] 0 <= j < i + 1 implies attrs[j].0
                    != key by {
                    if j >= 1 {
                        assert(attrs[j] == tail[j - 1]);
                    }
                }
            },
            None => {
                assert forall|j: int| #![trigger attrs[j]] 0 <= j < attrs.len() implies attrs[j].0
                    != key by {
                    if j >= 1 {
                        assert(attrs[j] == tail[j - 1]);
                    }
                }
            },
        }
    }
}

/// The value of the first attribute with the given key, if any.
pub fn attr_get<'a>(attrs: &'a Vec<(String, String)>, key: &str) -> (r: Option<&'a String>)
    ensures
        match attr_lookup(attrs_view(attrs@), key@) {
            Some(v) => r matches Some(rs) && rs@ == v,
            None => r is None,
        },
{
    proof {
        lemma_attr_lookup_props(attrs_view(attrs@), key@);
    }
    let n = attrs.len();
    let mut i: usize = 0;
    while i < n
        invariant
            0 <= i <= n,
            n == attrs@.len(),
            forall|j: int| #![trigger attrs@[j]] 0 <= j < i ==> attrs@[j].0@ != key@,
        decreases n - i,
    {
        if crate::strutil::str_eq(attrs[i].0.as_str(), key) {
            proof {
                lemma_attr_lookup_props(attrs_view(attrs@), key@);
                assert(attrs_view(attrs@)[i as int] == attr_view(attrs@[i as int]));
            }
            return Some(&attrs[i].1);
        }
        proof {
            assert(attrs_view(attrs@)[i as int] == attr_view(attrs@[i as int]));
        }
        i = i + 1;
    }
    proof {
        lemma_attr_lookup_props(attrs_view(attrs@), key@);
        assert forall|j: int| 0 <= j < attrs_view(attrs@).len() implies #[trigger] attrs_view(
            attrs@,
        )[j].0 != key@ by {
            assert(attrs_view(attrs@)[j] == attr_view(attrs@[j]));
        }
    }
    None
}

fn e_skip_ws(s: &str, i: usize) -> (j: usize)
    requires
        i <= s@.len(),
    ensures
        j as int == skip_ws(s@, i as int),
        i <= j <= s@.len(),
{
    let n = s.unicode_len();
    let mut cur = i;
    while cur < n
        invariant
            i <= cur <= n,
            n == s@.len(),
            skip_ws(s@, i as int) == skip_ws(s@, cur as int),
        decreases n - cur,
    {
        if !is_ws_e(s.get_char(cur)) {
            return cur;
        }
        cur = cur + 1;
    }
    cur
}

fn e_scan_ident(s: &str, i: usize) -> (j: usize)
    requires
        i <= s@.len(),
    ensures
        j as int == scan_ident(s@, i as int),
        i <= j <= s@.len(),
{
    let n = s.unicode_len();
    let mut cur = i;
    while cur < n
        invariant
            i <= cur <= n,
            n == s@.len(),
            scan_ident(s@, i as int) == scan_ident(s@, cur as int),
        decreases n - cur,
    {
        if !is_ident_char_e(s.get_char(cur)) {
            return cur;
        }
        cur = cur + 1;
    }
    cur
}

fn e_scan_value(s: &str, i: usize) -> (j: usize)
    requires
        i <= s@.len(),
    ensures
        j as int == scan_value(s@, i as int),
        i <= j <= s@.len(),
{
    let n = s.unicode_len();
    let mut cur = i;
    while cur < n
        invariant
            i <= cur <= n,
            n == s@.len(),
            scan_value(s@, i as int) == scan_value(s@, cur as int),
        decreases n - cur,
    {
        if !is_value_char_e(s.get_char(cur)) {
            return cur;
        }
        cur = cur + 1;
    }
    cur
}

fn e_ident(s: &str, i: usize) -> (r: Option<(String, usize)>)
    requires
        i <= s@.len(),
    ensures
        match p_ident(s@, i as int) {
            Some(t) => r matches Some(x) && x.0@ == t.0 && x.1 as int == t.1 && i < x.1 <= s@.len(),
            None => r is None,
        },
{
    let n = s.unicode_len();
    let j = e_skip_ws(s, i);
    if j < n && is_ident_start_e(s.get_char(j)) {
        let e = e_scan_ident(s, j);
        proof {
            lemma_p_ident_bounds(s@, i as int);
        }
        Some((s.substring_char(j, e).to_owned(), e))
    } else {
        None
    }
}

fn e_value(s: &str, i: usize) -> (r: Option<(String, usize)>)
    requires
        i <= s@.len(),
    ensures
        match p_value(s@, i as int) {
            Some(t) => r matches Some(x) && x.0@ == t.0 && x.1 as int == t.1 && i < x.1 <= s@.len(),
            None => r is None,
        },
{
    let n = s.unicode_len();
    let j = e_skip_ws(s, i);
    if j < n && is_value_char_e(s.get_char(j)) {
        let e = e_scan_value(s, j);
        proof {
            lemma_p_value_bounds(s@, i as int);
        }
        Some((s.substring_char(j, e).to_owned(), e))
    } else {
        None
    }
}

fn e_char(s: &str, i: usize, c: char) -> (r: Option<usize>)
    requires
        i <= s@.len(),
    ensures
        match p_char(s@, i as int, c) {
            Some(t) => r matches Some(j) && j as int == t && i < j <= s@.len(),
            None => r is None,
        },
{
    let n = s.unicode_len();
    let j = e_skip_ws(s, i);
    if j < n && s.get_char(j) == c {
        Some(j + 1)
    } else {
        None
    }
}

fn e_attr(s: &str, i: usize) -> (r: Option<((String, String), usize)>)
    requires
        i <= s@.len(),
    ensures
        match p_attr(s@, i as int) {
            Some(t) => r matches Some(x) && attr_view(x.0) == t.0 && x.1 as int == t.1 && i < x.1
                <= s@.len(),
            None => r is None,
        },
{
    let (k, j) = match e_ident(s, i) {
        Some(x) => x,
        None => {
            return None;
        },
    };
    let j2 = match e_char(s, j, '=') {
        Some(x) => x,
        None => {
            return None;
        },
    };
    let (v, j3) = match e_value(s, j2) {
        Some(x) => x,
        None => {
            return None;
        },
    };
    Some(((k, v), j3))
}

fn e_attr_rest(s: &str, i: usize) -> (r: Option<(Vec<(String, String)>, usize)>)
    requires
        i <= s@.len(),
    ensures
        match p_attr_rest(s@, i as int) {
            Some(t) => r matches Some(x) && attrs_view(x.0@) == t.0 && x.1 as int == t.1 && i < x.1
                <= s@.len(),
            None => r is None,
        },
    decreases s@.len() - i,
{
    match e_char(s, i, ',') {
        Some(j) => {
            let (a, k) = match e_attr(s, j) {
                Some(x) => x,
                None => {
                    return None;
                },
            };
            let (mut rest, e) = match e_attr_rest(s, k) {
                Some(x) => x,
                None => {
                    return None;
                },
            };
            let ghost rest0 = rest@;
            rest.insert(0, a);
            proof {
                assert(attrs_view(rest@) =~= seq![attr_view(a)] + attrs_view(rest0));
            }
            Some((rest, e))
        },
        None => {
            match e_char(s, i, ']') {
                Some(j) => {
                    let out: Vec<(String, String)> = Vec::new();
                    proof {
                        assert(attrs_view(out@) =~= Seq::<(Seq<char>, Seq<char>)>::empty());
                    }
                    Some((out, j))
                },
                None => None,
            }
        },
    }
}

fn e_attr_list(s: &str, i: usize) -> (r: Option<(Vec<(String, String)>, usize)>)
    requires
        i <= s@.len(),
    ensures
        match p_attr_list(s@, i as int) {
            Some(t) => r matches Some(x) && attrs_view(x.0@) == t.0 && x.1 as int == t.1 && i < x.1
                <= s@.len(),
            None => r is None,
        },
{
    let j = match e_char(s, i, '[') {
        Some(x) => x,
        None => {
            return None;
        },
    };
    match e_char(s, j, ']') {
        Some(k) => {
            let out: Vec<(String, String)> = Vec::new();
            proof {
                assert(attrs_view(out@) =~= Seq::<(Seq<char>, Seq<char>)>::empty());
            }
            Some((out, k))
        },
        None => {
            let (a, k) = match e_attr(s, j) {
                Some(x) => x,
                None => {
                    return None;
                },
            };
            let (mut rest, e) = match e_attr_rest(s, k) {
                Some(x) => x,
                None => {
                    return None;
                },
            };
            let ghost rest0 = rest@;
            rest.insert(0, a);
            proof {
                assert(attrs_view(rest@) =~= seq![attr_view(a)] + attrs_view(rest0));
            }
            Some((rest, e))
        },
    }
}

fn e_attrs_opt(s: &str, i: usize) -> (r: Option<(Vec<(String, String)>, usize)>)
    requires
        i <= s@.len(),
    ensures
        match p_attrs_opt(s@, i as int) {
            Some(t) => r matches Some(x) && attrs_view(x.0@) == t.0 && x.1 as int == t.1 && i <= x.1
                <= s@.len(),
            None => r is None,
        },
{
    let n = s.unicode_len();
    let j = e_skip_ws(s, i);
    if j < n && s.get_char(j) == '[' {
        e_attr_list(s, i)
    } else {
        let out: Vec<(String, String)> = Vec::new();
        proof {
            assert(attrs_view(out@) =~= Seq::<(Seq<char>, Seq<char>)>::empty());
        }
        Some((out, i))
    }
}

fn e_field(s: &str, i: usize) -> (r: Option<(FieldDef, usize)>)
    requires
        i <= s@.len(),
    ensures
        match p_field(s@, i as int) {
            Some(t) => r matches Some(x) && field_view(x.0) == t.0 && x.1 as int == t.1 && i < x.1
                <= s@.len(),
            None => r is None,
        },
{
    let (attrs, j) = match e_attrs_opt(s, i) {
        Some(x) => x,
        None => {
            return None;
        },
    };
    let (name, k) = match e_ident(s, j) {
        Some(x) => x,
        None => {
            return None;
        },
    };
    let k2 = match e_char(s, k, ':') {
        Some(x) => x,
        None => {
            return None;
        },
    };
    let (ty, k3) = match e_ident(s, k2) {
        Some(x) => x,
        None => {
            return None;
        },
    };
    let e = match e_char(s, k3, ';') {
        Some(x) => x,
        None => {
            return None;
        },
    };
    Some((FieldDef { attrs, name, ty }, e))
}

fn e_fields(s: &str, i: usize) -> (r: Option<(Vec<FieldDef>, usize)>)
    requires
        i <= s@.len(),
    ensures
        match p_fields(s@, i as int) {
            Some(t) => r matches Some(x) && x.0@.map_values(|f: FieldDef| field_view(f)) == t.0
                && x.1 as int == t.1 && i <= x.1 <= s@.len(),
            None => r is None,
        },
    decreases s@.len() - i,
{
    let n = s.unicode_len();
    let j = e_skip_ws(s, i);
    if j < n && s.get_char(j) == '}' {
        let out: Vec<FieldDef> = Vec::new();
        proof {
            assert(out@.map_values(|f: FieldDef| field_view(f)) =~= Seq::<SpecField>::empty());
        }
        Some((out, j))
    } else {
        let (f, k) = match e_field(s, i) {
            Some(x) => x,
            None => {
                return None;
            },
        };
        let (mut fs, e) = match e_fields(s, k) {
            Some(x) => x,
            None => {
                return None;
            },
        };
        let ghost fs0 = fs@;
        fs.insert(0, f);
        proof {
            assert(fs@.map_values(|f2: FieldDef| field_view(f2)) =~= seq![field_view(f)]
                + fs0.map_values(|f2: FieldDef| field_view(f2)));
        }
        Some((fs, e))
    }
}

fn e_def(s: &str, i: usize) -> (r: Option<(SyscallDef, usize)>)
    requires
        i <= s@.len(),
    ensures
        match p_def(s@, i as int) {
            Some(t) => r matches Some(x) && def_view(x.0) == t.0 && x.1 as int == t.1 && i < x.1
                <= s@.len(),
            None => r is None,
        },
{
    let (attrs, j) = match e_attrs_opt(s, i) {
        Some(x) => x,
        None => {
            return None;
        },
    };
    let (name, k) = match e_ident(s, j) {
        Some(x) => x,
        None => {
            return None;
        },
    };
    let k2 = match e_char(s, k, '{') {
        Some(x) => x,
        None => {
            return None;
        },
    };
    let (fields, k3) = match e_fields(s, k2) {
        Some(x) => x,
        None => {
            return None;
        },
    };
    let e = match e_char(s, k3, '}') {
        Some(x) => x,
        None => {
            return None;
        },
    };
    Some((SyscallDef { attrs, name, body: DefBody { fields } }, e))
}

fn e_defs(s: &str, i: usize) -> (r: Option<(Vec<ItemDef>, usize)>)
    requires
        i <= s@.len(),
    ensures
        match p_defs(s@, i as int) {
            Some(t) => r matches Some(x) && x.0@.map_values(|it: ItemDef| item_view(it)) == t.0
                && x.1 as int == t.1 && i <= x.1 <= s@.len(),
            None => r is None,
        },
    decreases s@.len() - i,
{
    let n = s.unicode_len();
    let j = e_skip_ws(s, i);
    if j >= n {
        let out: Vec<ItemDef> = Vec::new();
        proof {
            assert(out@.map_values(|it: ItemDef| item_view(it)) =~= Seq::<SpecDef>::empty());
        }
        Some((out, j))
    } else {
        let (d, k) = match e_def(s, i) {
            Some(x) => x,
            None => {
                return None;
            },
        };
        let (mut ds, e) = match e_defs(s, k) {
            Some(x) => x,
            None => {
                return None;
            },
        };
        let ghost ds0 = ds@;
        ds.insert(0, ItemDef::Syscall(d));
        proof {
            assert(ds@.map_values(|it: ItemDef| item_view(it)) =~= seq![item_view(
                ItemDef::Syscall(d),
            )] + ds0.map_values(|it: ItemDef| item_view(it)));
        }
        Some((ds, e))
    }
}

/// Parse a whole schema text into its parse tree.
pub fn parse(s: &str) -> (r: Option<Input>)
    ensures
        match parse_spec(s@) {
            Some(ds) => r matches Some(inp) && input_view(inp) == ds,
            None => r is None,
        },
{
    match e_defs(s, 0) {
        Some((defs, _)) => Some(Input { defs }),
        None => None,
    }
}

} // verus!
