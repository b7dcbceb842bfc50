//! The syntax of a plugin dependency patch and its parser.
//!
//! A patch is a comma-separated list of entries `ID: { PROPERTY: [DEP, ...], ... }` (the
//! `:` after `ID` may be left out), each list taking an optional trailing comma. `ID` is a
//! string literal or a path: identifiers (or `super`, `self`, `crate`, `try`, `Self`)
//! separated by `::`, optionally after a leading `::`, without generic arguments.
//! `PROPERTY` is an identifier that is not a keyword. `DEP` is zero or more attributes
//! `#[...]`, whose tokens are kept as written, then `+` (add) or `-` (remove), then an
//! optional `?` (optional dependency), then an `ID`.
//!
//! The grammar is stated as a relation between a parsed value and the tokens it is
//! written in (`patch_matches` and the relations it is made of); the parser is proved
//! to produce a value in that relation with its input, and to fail only on inputs that
//! no value is in relation with.

use super::token::{
    is_group, is_ident, is_keyword, is_keyword_text, is_punct, is_str_literal, starts_with_colons,
    text_is, Delimiter, TokenTree,
};
use vstd::prelude::*;

verus! {

/// Whether a dependency is added or removed.
#[derive(Clone, Copy, Debug, PartialEq, Eq, Structural)]
pub enum PluginDependencyOperation {
    /// `+`
    Add,
    /// `-`
    Remove,
}

/// The operation of a dependency and whether the dependency is optional (`?`).
#[derive(Clone, Copy, Debug, PartialEq, Eq, Structural)]
pub struct PluginDepType {
    pub op: PluginDependencyOperation,
    pub maybe_opt: bool,
}

/// A path: identifiers separated by `::`, optionally after a leading `::`.
#[derive(Debug)]
pub struct TypePath {
    pub leading_colon: bool,
    pub segments: Vec<String>,
}

/// A plugin id as written: a string literal, or the path of a plugin type.
#[derive(Debug)]
pub enum PluginId {
    /// A string literal, as written (quotes included).
    Literal(String),
    /// The path of a plugin type.
    Path(TypePath),
}

/// A dependency change: `#[attr]* (+|-) ?? ID`.
#[derive(Debug)]
pub struct PluginDep {
    /// The tokens inside the brackets of each attribute.
    pub attrs: Vec<Vec<TokenTree>>,
    pub ty: PluginDepType,
    pub id: PluginId,
}

/// The dependency changes inside `[ ... ]`.
#[derive(Debug)]
pub struct PluginDeps {
    pub deps: Vec<PluginDep>,
    pub trailing_comma: bool,
}

/// `PROPERTY: [ ... ]`
#[derive(Debug)]
pub struct PluginDepsWithId {
    pub ident: String,
    /// Where the property stands in the source (see [`TokenTree::Ident`]).
    pub span: Option<usize>,
    pub deps: PluginDeps,
}

/// `ID: { PROPERTY: [ ... ], ... }`, where the `:` may be left out.
#[derive(Debug)]
pub struct PluginPatchEntry {
    pub id: PluginId,
    /// Whether the `:` is written.
    pub semi: bool,
    pub deps: Vec<PluginDepsWithId>,
    pub trailing_comma: bool,
}

/// A whole patch: its entries.
#[derive(Debug)]
pub struct PluginPatch {
    pub entries: Vec<PluginPatchEntry>,
    pub trailing_comma: bool,
}

/// A plugin id as a value.
pub enum IdView {
    Literal(Seq<char>),
    Path(bool, Seq<Seq<char>>),
}

/// A dependency change as a value.
pub struct DepView {
    pub attrs: Seq<Seq<TokenTree>>,
    pub ty: PluginDepType,
    pub id: IdView,
}

/// A list of dependency changes as a value.
pub struct DepsView {
    pub deps: Seq<DepView>,
    pub trailing: bool,
}

/// A property and its dependency changes as a value.
pub struct DepsWithIdView {
    pub ident: Seq<char>,
    pub span: Option<usize>,
    pub deps: DepsView,
}

/// An entry as a value.
pub struct EntryView {
    pub id: IdView,
    pub semi: bool,
    pub deps: Seq<DepsWithIdView>,
    pub trailing: bool,
}

/// A patch as a value.
pub struct PatchView {
    pub entries: Seq<EntryView>,
    pub trailing: bool,
}

impl View for TypePath {
    type V = (bool, Seq<Seq<char>>);

    open spec fn view(&self) -> (bool, Seq<Seq<char>>) {
        (self.leading_colon, self.segments@.map_values(|s: String| s@))
    }
}

impl View for PluginId {
    type V = IdView;

    open spec fn view(&self) -> IdView {
        match self {
            PluginId::Literal(s) => IdView::Literal(s@),
            PluginId::Path(p) => IdView::Path(p@.0, p@.1),
        }
    }
}

impl View for PluginDep {
    type V = DepView;

    open spec fn view(&self) -> DepView {
        DepView { attrs: self.attrs@.map_values(|a: Vec<TokenTree>| a@), ty: self.ty, id: self.id@ }
    }
}

impl View for PluginDeps {
    type V = DepsView;

    open spec fn view(&self) -> DepsView {
        DepsView { deps: self.deps@.map_values(|d: PluginDep| d@), trailing: self.trailing_comma }
    }
}

impl View for PluginDepsWithId {
    type V = DepsWithIdView;

    open spec fn view(&self) -> DepsWithIdView {
        DepsWithIdView { ident: self.ident@, span: self.span, deps: self.deps@ }
    }
}

impl View for PluginPatchEntry {
    type V = EntryView;

    open spec fn view(&self) -> EntryView {
        EntryView {
            id: self.id@,
            semi: self.semi,
            deps: self.deps@.map_values(|g: PluginDepsWithId| g@),
            trailing: self.trailing_comma,
        }
    }
}

impl View for PluginPatch {
    type V = PatchView;

    open spec fn view(&self) -> PatchView {
        PatchView { entries: self.entries@.map_values(|e: PluginPatchEntry| e@), trailing: self.trailing_comma }
    }
}

// The grammar.

/// A word that may stand as a segment of a path: an identifier, or one of the keywords
/// `super`, `self`, `crate`, `try` and `Self`.
pub open spec fn segment_ok(word: Seq<char>) -> bool {
    ||| !is_keyword(word)
    ||| word == "super"@
    ||| word == "self"@
    ||| word == "crate"@
    ||| word == "try"@
    ||| word == "Self"@
}

/// The number of tokens of a leading `::`.
pub open spec fn lead_len(leading_colon: bool) -> int {
    if leading_colon {
        2
    } else {
        0
    }
}

/// The number of tokens of a path of `n` segments.
pub open spec fn path_len(leading_colon: bool, n: int) -> int {
    lead_len(leading_colon) + 3 * n - 2
}

/// Segment `i` of a path written in `s` is the word `word`.
pub open spec fn segment_at(s: Seq<TokenTree>, leading_colon: bool, i: int, word: Seq<char>) -> bool {
    is_ident(s[lead_len(leading_colon) + 3 * i], word) && segment_ok(word)
}

/// Segment `i` of a path written in `s` comes after `::`.
pub open spec fn colons_before(s: Seq<TokenTree>, leading_colon: bool, i: int) -> bool {
    starts_with_colons(s.skip(lead_len(leading_colon) + 3 * i - 2))
}

/// `s` is exactly the path with the given leading `::` and segments.
pub open spec fn path_matches(leading_colon: bool, segments: Seq<Seq<char>>, s: Seq<TokenTree>) -> bool {
    &&& segments.len() >= 1
    &&& s.len() == path_len(leading_colon, segments.len() as int)
    &&& leading_colon ==> starts_with_colons(s)
    &&& forall|i: int| 0 <= i < segments.len() ==> #[trigger] segment_at(s, leading_colon, i, segments[i])
    &&& forall|i: int| 0 < i < segments.len() ==> #[trigger] colons_before(s, leading_colon, i)
}

/// The number of tokens of a plugin id.
pub open spec fn id_len(id: IdView) -> int {
    match id {
        IdView::Literal(_) => 1,
        IdView::Path(leading_colon, segments) => path_len(leading_colon, segments.len() as int),
    }
}

/// `s` is exactly the plugin id `id`.
pub open spec fn id_matches(id: IdView, s: Seq<TokenTree>) -> bool {
    match id {
        IdView::Literal(text) => s.len() == 1 && is_str_literal(s[0], text),
        IdView::Path(leading_colon, segments) => path_matches(leading_colon, segments, s),
    }
}

/// `s` starts with the plugin id `id`, and, where `id` is a path, what follows does not
/// go on with `::`.
pub open spec fn id_prefix(id: IdView, s: Seq<TokenTree>) -> bool {
    &&& id_len(id) <= s.len()
    &&& id_matches(id, s.take(id_len(id)))
    &&& id is Path ==> !starts_with_colons(s.skip(id_len(id)))
}

/// The token of an operation.
pub open spec fn op_token(t: TokenTree, op: PluginDependencyOperation) -> bool {
    match op {
        PluginDependencyOperation::Add => is_punct(t, '+'),
        PluginDependencyOperation::Remove => is_punct(t, '-'),
    }
}

/// Where the id of a dependency change starts.
pub open spec fn dep_id_start(d: DepView) -> int {
    2 * d.attrs.len() + 1 + (if d.ty.maybe_opt {
        1int
    } else {
        0int
    })
}

/// The number of tokens of a dependency change.
pub open spec fn dep_len(d: DepView) -> int {
    dep_id_start(d) + id_len(d.id)
}

/// Attribute `j` of a dependency change written in `s` holds the tokens `content`.
pub open spec fn attr_at(s: Seq<TokenTree>, j: int, content: Seq<TokenTree>) -> bool {
    is_punct(s[2 * j], '#') && is_group(s[2 * j + 1], Delimiter::Bracket, content)
}

/// `s` is exactly the dependency change `d`.
pub open spec fn dep_matches(d: DepView, s: Seq<TokenTree>) -> bool {
    let a = d.attrs.len() as int;
    &&& s.len() == dep_len(d)
    &&& forall|j: int| 0 <= j < a ==> #[trigger] attr_at(s, j, d.attrs[j])
    &&& op_token(s[2 * a], d.ty.op)
    &&& d.ty.maybe_opt ==> is_punct(s[2 * a + 1], '?')
    &&& id_matches(d.id, s.skip(dep_id_start(d)))
}

/// `s` starts with the dependency change `d`, and, where its id is a path, what follows
/// does not go on with `::`.
pub open spec fn dep_prefix(d: DepView, s: Seq<TokenTree>) -> bool {
    &&& dep_len(d) <= s.len()
    &&& dep_matches(d, s.take(dep_len(d)))
    &&& id_prefix(d.id, s.skip(dep_id_start(d)))
}

/// `s` is exactly the items, each written in `len` tokens as `m` says, separated by
/// commas, with a comma after the last one if `trailing`.
pub open spec fn list_rest<A>(
    items: Seq<A>,
    trailing: bool,
    s: Seq<TokenTree>,
    len: spec_fn(A) -> int,
    m: spec_fn(A, Seq<TokenTree>) -> bool,
) -> bool
    decreases items.len(),
{
    if items.len() == 0 {
        s.len() == 0
    } else {
        let n = len(items[0]);
        &&& 0 < n <= s.len()
        &&& m(items[0], s.take(n))
        &&& if items.len() == 1 && !trailing {
            s.len() == n
        } else {
            &&& n < s.len()
            &&& is_punct(s[n], ',')
            &&& list_rest(items.skip(1), trailing, s.skip(n + 1), len, m)
        }
    }
}

/// `s` is exactly a comma-separated list of the items, with a trailing comma if
/// `trailing` (an empty list has none).
pub open spec fn list_matches<A>(
    items: Seq<A>,
    trailing: bool,
    s: Seq<TokenTree>,
    len: spec_fn(A) -> int,
    m: spec_fn(A, Seq<TokenTree>) -> bool,
) -> bool {
    list_rest(items, trailing, s, len, m) && (items.len() == 0 ==> !trailing)
}

/// The length of a dependency change, as a function value.
pub open spec fn dep_len_fn() -> spec_fn(DepView) -> int {
    |x: DepView| dep_len(x)
}

/// The relation of a dependency change and its tokens, as a function value.
pub open spec fn dep_fn() -> spec_fn(DepView, Seq<TokenTree>) -> bool {
    |x: DepView, t: Seq<TokenTree>| dep_matches(x, t)
}

/// `s` is exactly the dependency changes of `d`.
pub open spec fn deps_matches(d: DepsView, s: Seq<TokenTree>) -> bool {
    list_matches(d.deps, d.trailing, s, dep_len_fn(), dep_fn())
}

/// `s` is exactly the property `g` with its dependency changes.
pub open spec fn deps_with_id_matches(g: DepsWithIdView, s: Seq<TokenTree>) -> bool {
    &&& s.len() == 3
    &&& is_ident(s[0], g.ident)
    &&& s[0] matches TokenTree::Ident(_, at) && at == g.span
    &&& !is_keyword(g.ident)
    &&& is_punct(s[1], ':')
    &&& s[2] matches TokenTree::Group(d, v) && d == Delimiter::Bracket && deps_matches(g.deps, v@)
}

/// The length of a property with its dependency changes, as a function value.
pub open spec fn deps_with_id_len_fn() -> spec_fn(DepsWithIdView) -> int {
    |g: DepsWithIdView| 3int
}

/// The relation of a property and its tokens, as a function value.
pub open spec fn deps_with_id_fn() -> spec_fn(DepsWithIdView, Seq<TokenTree>) -> bool {
    |g: DepsWithIdView, t: Seq<TokenTree>| deps_with_id_matches(g, t)
}

/// The number of tokens of an entry.
pub open spec fn entry_len(e: EntryView) -> int {
    id_len(e.id) + (if e.semi {
        2int
    } else {
        1int
    })
}

/// Where the braces of an entry stand.
pub open spec fn entry_group_at(e: EntryView) -> int {
    entry_len(e) - 1
}

/// `s` is exactly the entry `e`.
pub open spec fn entry_matches(e: EntryView, s: Seq<TokenTree>) -> bool {
    let n = id_len(e.id);
    &&& s.len() == entry_len(e)
    &&& id_matches(e.id, s.take(n))
    &&& e.semi ==> is_punct(s[n], ':')
    &&& s[entry_group_at(e)] matches TokenTree::Group(d, v) && d == Delimiter::Brace && list_matches(
        e.deps,
        e.trailing,
        v@,
        deps_with_id_len_fn(),
        deps_with_id_fn(),
    )
}

/// The length of an entry, as a function value.
pub open spec fn entry_len_fn() -> spec_fn(EntryView) -> int {
    |e: EntryView| entry_len(e)
}

/// The relation of an entry and its tokens, as a function value.
pub open spec fn entry_fn() -> spec_fn(EntryView, Seq<TokenTree>) -> bool {
    |e: EntryView, t: Seq<TokenTree>| entry_matches(e, t)
}

/// `s` is exactly the patch `p`.
pub open spec fn patch_matches(p: PatchView, s: Seq<TokenTree>) -> bool {
    list_matches(p.entries, p.trailing, s, entry_len_fn(), entry_fn())
}

/// `r` starts with the item `x`, which is followed by a comma or by nothing.
pub open spec fn item_then_comma<A>(
    x: A,
    r: Seq<TokenTree>,
    len: spec_fn(A) -> int,
    m: spec_fn(A, Seq<TokenTree>) -> bool,
) -> bool {
    &&& 0 < len(x) <= r.len()
    &&& m(x, r.take(len(x)))
    &&& (r.len() == len(x) || is_punct(r[len(x)], ','))
}

/// Items each followed by a comma, then a non-empty list: together, one list.
pub proof fn lemma_list_append<A>(
    d: Seq<A>,
    p: Seq<TokenTree>,
    tail: Seq<A>,
    t: bool,
    r: Seq<TokenTree>,
    len: spec_fn(A) -> int,
    m: spec_fn(A, Seq<TokenTree>) -> bool,
)
    requires
        list_rest(d, true, p, len, m),
        list_rest(tail, t, r, len, m),
        tail.len() > 0,
    ensures
        list_rest(d + tail, t, p + r, len, m),
    decreases d.len(),
{
    if d.len() == 0 {
        assert(d + tail =~= tail);
        assert(p + r =~= r);
    } else {
        let n = len(d[0]);
        lemma_list_append(d.skip(1), p.skip(n + 1), tail, t, r, len, m);
        assert((d + tail)[0] == d[0]);
        assert((p + r).take(n) =~= p.take(n));
        assert((p + r)[n] == p[n]);
        assert((d + tail).skip(1) =~= d.skip(1) + tail);
        assert((p + r).skip(n + 1) =~= p.skip(n + 1) + r);
    }
}

/// A list without a trailing comma, then a comma: the same list with a trailing comma.
pub proof fn lemma_list_comma<A>(
    items: Seq<A>,
    s: Seq<TokenTree>,
    c: TokenTree,
    len: spec_fn(A) -> int,
    m: spec_fn(A, Seq<TokenTree>) -> bool,
)
    requires
        list_rest(items, false, s, len, m),
        items.len() > 0,
        is_punct(c, ','),
    ensures
        list_rest(items, true, s.push(c), len, m),
    decreases items.len(),
{
    let n = len(items[0]);
    let t = s.push(c);
    assert(t.take(n) =~= s.take(n));
    if items.len() == 1 {
        assert(t.skip(n + 1).len() == 0);
        assert(items.skip(1).len() == 0);
        assert(list_rest(items.skip(1), true, t.skip(n + 1), len, m));
        assert(t[n] == c);
    } else {
        lemma_list_comma(items.skip(1), s.skip(n + 1), c, len, m);
        assert(t.skip(n + 1) =~= s.skip(n + 1).push(c));
        assert(t[n] == s[n]);
    }
}

/// A list is determined by its tokens, where an item is determined by the tokens it starts
/// when a comma or nothing follows it.
pub proof fn lemma_list_unique<A>(
    a: Seq<A>,
    ta: bool,
    b: Seq<A>,
    tb: bool,
    s: Seq<TokenTree>,
    len: spec_fn(A) -> int,
    m: spec_fn(A, Seq<TokenTree>) -> bool,
)
    requires
        list_rest(a, ta, s, len, m),
        list_rest(b, tb, s, len, m),
        forall|x: A, y: A, r: Seq<TokenTree>|
            #[trigger] item_then_comma(x, r, len, m) && #[trigger] item_then_comma(y, r, len, m) ==> x == y,
    ensures
        a == b,
        a.len() > 0 ==> ta == tb,
    decreases a.len(),
{
    if a.len() > 0 && b.len() > 0 {
        let n = len(a[0]);
        assert(item_then_comma(a[0], s, len, m));
        assert(item_then_comma(b[0], s, len, m));
        assert(a[0] == b[0]);
        if !(a.len() == 1 && !ta) && !(b.len() == 1 && !tb) {
            lemma_list_unique(a.skip(1), ta, b.skip(1), tb, s.skip(n + 1), len, m);
            if a.len() == 1 {
                if b.len() > 1 {
                    assert(0 < len(b.skip(1)[0]));
                }
            }
            assert(a.skip(1).len() == b.skip(1).len());
            assert(a.len() == b.len());
            assert forall|i: int| 0 <= i < a.len() implies a[i] == b[i] by {
                if i > 0 {
                    assert(a[i] == a.skip(1)[i - 1]);
                    assert(b[i] == b.skip(1)[i - 1]);
                }
            }
            assert(a =~= b);
        } else {
            assert(a =~= b);
        }
    } else if a.len() > 0 {
        assert(0 < len(a[0]));
    } else if b.len() > 0 {
        assert(0 < len(b[0]));
    }
}

// Parsing.

/// Why tokens are not a patch: what the parser expected where it stopped.
#[derive(Clone, Copy, Debug)]
pub struct SyntaxError {
    pub expected: &'static str,
}

/// Whether token `i` of `ts` is the punctuation character `c`.
fn punct_at(ts: &Vec<TokenTree>, i: usize, c: char) -> (r: bool)
    ensures
        r == (i < ts@.len() && is_punct(ts@[i as int], c)),
{
    if i < ts.len() {
        match &ts[i] {
            TokenTree::Punct(d, _) => *d == c,
            _ => false,
        }
    } else {
        false
    }
}

/// Whether `ts` starts with `::`.
fn front_is_colons(ts: &Vec<TokenTree>) -> (r: bool)
    ensures
        r == starts_with_colons(ts@),
{
    if ts.len() >= 2 {
        match &ts[0] {
            TokenTree::Punct(c, joint) => *c == ':' && *joint && punct_at(ts, 1, ':'),
            _ => false,
        }
    } else {
        false
    }
}

/// Takes the first token out of `ts`.
fn take_front(ts: &mut Vec<TokenTree>) -> (r: TokenTree)
    requires
        old(ts)@.len() > 0,
    ensures
        r == old(ts)@[0],
        final(ts)@ == old(ts)@.skip(1),
{
    let ghost before = ts@;
    let r = ts.remove(0);
    assert(before.remove(0) =~= before.skip(1));
    r
}

/// Drops the first `n` tokens of `ts`.
fn drop_front(ts: &mut Vec<TokenTree>, n: usize)
    requires
        n <= old(ts)@.len(),
    ensures
        final(ts)@ == old(ts)@.skip(n as int),
{
    let ghost before = ts@;
    let mut k: usize = 0;
    while k < n
        invariant
            k <= n,
            n <= before.len(),
            ts@ == before.skip(k as int),
        decreases n - k,
    {
        let _ = take_front(ts);
        assert(before.skip(k as int).skip(1) =~= before.skip(k + 1));
        k = k + 1;
    }
}

/// Whether `word` may stand as a path segment.
fn segment_ok_text(word: &String) -> (r: bool)
    ensures
        r == segment_ok(word@),
{
    !is_keyword_text(word) || text_is(word, "super") || text_is(word, "self") || text_is(word, "crate")
        || text_is(word, "try") || text_is(word, "Self")
}

/// Takes a path segment from the front of `ts`.
fn take_segment(ts: &mut Vec<TokenTree>) -> (r: Option<String>)
    ensures
        match r {
            Some(w) => {
                &&& old(ts)@.len() > 0
                &&& is_ident(old(ts)@[0], w@)
                &&& segment_ok(w@)
                &&& final(ts)@ == old(ts)@.skip(1)
            },
            None => old(ts)@.len() > 0 ==> !(old(ts)@[0] matches TokenTree::Ident(x, _) && segment_ok(x@)),
        },
{
    let ok = if ts.len() > 0 {
        match &ts[0] {
            TokenTree::Ident(x, _) => segment_ok_text(x),
            _ => false,
        }
    } else {
        false
    };
    if ok {
        match take_front(ts) {
            TokenTree::Ident(x, _) => Some(x),
            _ => None,
        }
    } else {
        None
    }
}

/// Two paths that both start `s`, each not followed by `::`, are the same path.
pub proof fn lemma_path_unique(l1: bool, w1: Seq<Seq<char>>, l2: bool, w2: Seq<Seq<char>>, s: Seq<TokenTree>)
    requires
        id_prefix(IdView::Path(l1, w1), s),
        id_prefix(IdView::Path(l2, w2), s),
    ensures
        l1 == l2,
        w1 == w2,
{
    let n1 = path_len(l1, w1.len() as int);
    let n2 = path_len(l2, w2.len() as int);
    let t1 = s.take(n1);
    let t2 = s.take(n2);
    if l1 != l2 {
        if l1 {
            assert(segment_at(t2, l2, 0, w2[0]));
            assert(t1[0] == s[0] && t2[0] == s[0]);
        } else {
            assert(segment_at(t1, l1, 0, w1[0]));
            assert(t1[0] == s[0] && t2[0] == s[0]);
        }
    }
    let lead = lead_len(l1);
    if w1.len() < w2.len() {
        let i = w1.len() as int;
        assert(colons_before(t2, l2, i));
        assert(t2.skip(lead + 3 * i - 2)[0] == s.skip(n1)[0]);
        assert(t2.skip(lead + 3 * i - 2)[1] == s.skip(n1)[1]);
    }
    if w2.len() < w1.len() {
        let i = w2.len() as int;
        assert(colons_before(t1, l1, i));
        assert(t1.skip(lead + 3 * i - 2)[0] == s.skip(n2)[0]);
        assert(t1.skip(lead + 3 * i - 2)[1] == s.skip(n2)[1]);
    }
    assert forall|i: int| 0 <= i < w1.len() implies w1[i] == w2[i] by {
        assert(segment_at(t1, l1, i, w1[i]));
        assert(segment_at(t2, l2, i, w2[i]));
        assert(t1[lead + 3 * i] == s[lead + 3 * i]);
        assert(t2[lead + 3 * i] == s[lead + 3 * i]);
    }
    assert(w1 =~= w2);
}

/// Parses a path from the front of `ts`: segments separated by `::` for as long as `::`
/// follows.
fn parse_path(ts: &mut Vec<TokenTree>) -> (r: Result<TypePath, SyntaxError>)
    ensures
        match r {
            Ok(p) => {
                &&& id_prefix(IdView::Path(p@.0, p@.1), old(ts)@)
                &&& final(ts)@ == old(ts)@.skip(path_len(p@.0, p@.1.len() as int))
            },
            Err(_) => true,
        },
        forall|l: bool, w: Seq<Seq<char>>|
            #[trigger] id_prefix(IdView::Path(l, w), old(ts)@) ==> (r matches Ok(p) && p@.0 == l && p@.1 == w),
{
    let ghost s = ts@;
    let ghost has = exists|l: bool, w: Seq<Seq<char>>| #[trigger] id_prefix(IdView::Path(l, w), s);
    let ghost pick: (bool, Seq<Seq<char>>) = choose|l: bool, w: Seq<Seq<char>>|
        #[trigger] id_prefix(IdView::Path(l, w), s);
    let ghost wl = pick.0;
    let ghost ww = pick.1;
    let leading_colon = front_is_colons(ts);
    proof {
        if has {
            assert(id_prefix(IdView::Path(wl, ww), s));
            let t = s.take(path_len(wl, ww.len() as int));
            if wl && !leading_colon {
                assert(t[0] == s[0] && t[1] == s[1]);
            }
            if !wl && leading_colon {
                assert(segment_at(t, wl, 0, ww[0]));
                assert(t[0] == s[0]);
            }
        }
    }
    let ghost lead = lead_len(leading_colon);
    if leading_colon {
        drop_front(ts, 2);
    }
    let mut segments: Vec<String> = Vec::new();
    let mut more = true;
    let mut failed = false;
    while more
        invariant
            !failed ==> ts@ == s.skip(
                if more {
                    lead + 3 * segments@.len()
                } else {
                    lead + 3 * segments@.len() - 2
                },
            ),
            !failed ==> (if more {
                lead + 3 * segments@.len()
            } else {
                lead + 3 * segments@.len() - 2
            }) <= s.len(),
            lead == lead_len(leading_colon),
            leading_colon ==> starts_with_colons(s),
            !failed ==> (!more ==> segments@.len() >= 1),
            !failed ==> lead + 3 * segments@.len() - 2 <= s.len(),
            !failed ==> forall|i: int|
                0 <= i < segments@.len() ==> #[trigger] segment_at(s, leading_colon, i, segments@[i]@),
            !failed ==> forall|i: int| 0 < i < segments@.len() ==> #[trigger] colons_before(s, leading_colon, i),
            !failed ==> (more && segments@.len() > 0 ==> colons_before(s, leading_colon, segments@.len() as int)),
            !failed ==> (!more ==> !starts_with_colons(ts@)),
            failed ==> !more,
            has ==> !failed,
            has ==> id_prefix(IdView::Path(wl, ww), s) && wl == leading_colon,
            has ==> (more ==> segments@.len() < ww.len()),
            has ==> (!more ==> segments@.len() == ww.len()),
            has ==> forall|i: int| 0 <= i < segments@.len() ==> segments@[i]@ == ww[i],
        decreases
            if more {
                s.len() + 3 - lead - 3 * segments@.len()
            } else {
                0
            },
    {
        let ghost n = segments@.len() as int;
        let ghost pos = lead + 3 * n;
        let ghost t = s.take(path_len(wl, ww.len() as int));
        proof {
            if has {
                assert(segment_at(t, wl, n, ww[n]));
                assert(t[pos] == s[pos]);
                assert(s.skip(pos)[0] == s[pos]);
            }
        }
        match take_segment(ts) {
            Some(word) => {
                proof {
                    assert(s.skip(pos)[0] == s[pos]);
                    assert(s.skip(pos).skip(1) =~= s.skip(pos + 1));
                }
                segments.push(word);
                proof {
                    assert forall|i: int| 0 <= i < segments@.len() implies #[trigger] segment_at(
                        s,
                        leading_colon,
                        i,
                        segments@[i]@,
                    ) by {
                        if i < n {
                            assert(segment_at(s, leading_colon, i, segments@[i]@));
                        }
                    }
                }
                if front_is_colons(ts) {
                    proof {
                        assert(ts@[0] == s[pos + 1] && ts@[1] == s[pos + 2]);
                        assert(colons_before(s, leading_colon, n + 1)) by {
                            assert(s.skip(lead + 3 * (n + 1) - 2)[0] == s[pos + 1]);
                            assert(s.skip(lead + 3 * (n + 1) - 2)[1] == s[pos + 2]);
                        }
                        if has && n + 1 == ww.len() {
                            let len = path_len(wl, ww.len() as int);
                            assert(len == pos + 1);
                            assert(s.skip(len)[0] == s[pos + 1] && s.skip(len)[1] == s[pos + 2]);
                        }
                    }
                    drop_front(ts, 2);
                    proof {
                        assert(s.skip(pos + 1).skip(2) =~= s.skip(pos + 3));
                    }
                } else {
                    proof {
                        if has && n + 1 < ww.len() {
                            assert(colons_before(t, wl, n + 1));
                            let j = lead + 3 * (n + 1) - 2;
                            assert(t.skip(j)[0] == s[j] && t.skip(j)[1] == s[j + 1]);
                            assert(ts@[0] == s[j] && ts@[1] == s[j + 1]);
                        }
                    }
                    more = false;
                }
            },
            None => {
                failed = true;
                more = false;
            },
        }
    }
    if failed {
        return Err(SyntaxError { expected: "identifier" });
    }
    let p = TypePath { leading_colon, segments };
    proof {
        let len = path_len(leading_colon, p@.1.len() as int);
        let t = s.take(len);
        assert forall|i: int| 0 <= i < p@.1.len() implies #[trigger] segment_at(t, leading_colon, i, p@.1[i]) by {
            assert(segment_at(s, leading_colon, i, segments@[i]@));
            assert(t[lead + 3 * i] == s[lead + 3 * i]);
        }
        assert forall|i: int| 0 < i < p@.1.len() implies #[trigger] colons_before(t, leading_colon, i) by {
            assert(colons_before(s, leading_colon, i));
            let j = lead + 3 * i - 2;
            assert(t.skip(j)[0] == s.skip(j)[0] && t.skip(j)[1] == s.skip(j)[1]);
        }
        if leading_colon {
            assert(t[0] == s[0] && t[1] == s[1]);
        }
        assert(path_matches(leading_colon, p@.1, t));
        assert(id_prefix(IdView::Path(p@.0, p@.1), s));
        assert forall|l: bool, w: Seq<Seq<char>>| #[trigger] id_prefix(IdView::Path(l, w), s) implies p@.0 == l
            && p@.1 == w by {
            lemma_path_unique(l, w, p@.0, p@.1, s);
        }
    }
    Ok(p)
}

/// The first token of a plugin id: a literal, `:` of a leading `::`, or an identifier.
pub proof fn lemma_id_first_token(id: IdView, t: Seq<TokenTree>)
    requires
        id_matches(id, t),
    ensures
        t.len() >= 1,
        match id {
            IdView::Literal(_) => t[0] is Literal,
            IdView::Path(leading_colon, segments) => if leading_colon {
                is_punct(t[0], ':')
            } else {
                t[0] is Ident
            },
        },
{
    if let IdView::Path(l, w) = id {
        if !l {
            assert(segment_at(t, l, 0, w[0]));
        }
    }
}

/// Two plugin ids that both start `s` (paths not followed by `::`) are the same id.
pub proof fn lemma_id_unique(w1: IdView, w2: IdView, s: Seq<TokenTree>)
    requires
        id_prefix(w1, s),
        id_prefix(w2, s),
    ensures
        w1 == w2,
{
    let t1 = s.take(id_len(w1));
    let t2 = s.take(id_len(w2));
    lemma_id_first_token(w1, t1);
    lemma_id_first_token(w2, t2);
    assert(t1[0] == s[0] && t2[0] == s[0]);
    match w1 {
        IdView::Literal(a) => {
            match w2 {
                IdView::Literal(b) => {},
                IdView::Path(l, w) => {},
            }
        },
        IdView::Path(l1, v1) => {
            match w2 {
                IdView::Literal(b) => {},
                IdView::Path(l2, v2) => {
                    lemma_path_unique(l1, v1, l2, v2, s);
                },
            }
        },
    }
}

/// Parses a plugin id from the front of `ts`: a string literal if one comes first, else a
/// path.
fn parse_id(ts: &mut Vec<TokenTree>) -> (r: Result<PluginId, SyntaxError>)
    ensures
        match r {
            Ok(id) => id_prefix(id@, old(ts)@) && final(ts)@ == old(ts)@.skip(id_len(id@)),
            Err(_) => true,
        },
        forall|w: IdView| #[trigger] id_prefix(w, old(ts)@) ==> (r matches Ok(id) && id@ == w),
{
    let ghost s = ts@;
    let is_literal = if ts.len() > 0 {
        match &ts[0] {
            TokenTree::Literal(_, is_str) => *is_str,
            _ => false,
        }
    } else {
        false
    };
    if is_literal {
        match take_front(ts) {
            TokenTree::Literal(text, _) => {
                let id = PluginId::Literal(text);
                proof {
                    assert(s.take(1) =~= seq![s[0]]);
                    assert forall|w: IdView| #[trigger] id_prefix(w, s) implies id@ == w by {
                        lemma_id_unique(w, id@, s);
                    }
                }
                Ok(id)
            },
            _ => Err(SyntaxError { expected: "string literal" }),
        }
    } else {
        proof {
            assert forall|w: IdView| #[trigger] id_prefix(w, s) implies w is Path by {
                let t = s.take(id_len(w));
                lemma_id_first_token(w, t);
                assert(t[0] == s[0]);
            }
        }
        match parse_path(ts) {
            Ok(p) => {
                let id = PluginId::Path(p);
                proof {
                    assert forall|w: IdView| #[trigger] id_prefix(w, s) implies id@ == w by {
                        if let IdView::Path(l, v) = w {
                            assert(id_prefix(IdView::Path(l, v), s));
                        }
                    }
                }
                Ok(id)
            },
            Err(e) => {
                proof {
                    assert forall|w: IdView| #[trigger] id_prefix(w, s) implies false by {
                        if let IdView::Path(l, v) = w {
                            assert(id_prefix(IdView::Path(l, v), s));
                        }
                    }
                }
                Err(e)
            },
        }
    }
}

/// Two dependency changes that both start `s` are the same change.
pub proof fn lemma_dep_unique(w1: DepView, w2: DepView, s: Seq<TokenTree>)
    requires
        dep_prefix(w1, s),
        dep_prefix(w2, s),
    ensures
        w1 == w2,
{
    let t1 = s.take(dep_len(w1));
    let t2 = s.take(dep_len(w2));
    let a1 = w1.attrs.len() as int;
    let a2 = w2.attrs.len() as int;
    if a1 < a2 {
        assert(attr_at(t2, a1, w2.attrs[a1]));
        assert(t1[2 * a1] == s[2 * a1] && t2[2 * a1] == s[2 * a1]);
    }
    if a2 < a1 {
        assert(attr_at(t1, a2, w1.attrs[a2]));
        assert(t1[2 * a2] == s[2 * a2] && t2[2 * a2] == s[2 * a2]);
    }
    let a = a1;
    assert forall|j: int| 0 <= j < a implies w1.attrs[j] == w2.attrs[j] by {
        assert(attr_at(t1, j, w1.attrs[j]));
        assert(attr_at(t2, j, w2.attrs[j]));
        assert(t1[2 * j + 1] == s[2 * j + 1] && t2[2 * j + 1] == s[2 * j + 1]);
    }
    assert(w1.attrs =~= w2.attrs);
    assert(t1[2 * a] == s[2 * a] && t2[2 * a] == s[2 * a]);
    if w1.ty.maybe_opt != w2.ty.maybe_opt {
        if w1.ty.maybe_opt {
            let u = t2.skip(dep_id_start(w2));
            lemma_id_first_token(w2.id, u);
            assert(u[0] == s[2 * a + 1] && t1[2 * a + 1] == s[2 * a + 1]);
        } else {
            let u = t1.skip(dep_id_start(w1));
            lemma_id_first_token(w1.id, u);
            assert(u[0] == s[2 * a + 1] && t2[2 * a + 1] == s[2 * a + 1]);
        }
    }
    lemma_id_unique(w1.id, w2.id, s.skip(dep_id_start(w1)));
}

/// Parses a dependency change from the front of `ts`.
#[verifier::rlimit(40)]
fn parse_dep(ts: &mut Vec<TokenTree>) -> (r: Result<PluginDep, SyntaxError>)
    ensures
        match r {
            Ok(d) => dep_prefix(d@, old(ts)@) && final(ts)@ == old(ts)@.skip(dep_len(d@)),
            Err(_) => true,
        },
        forall|w: DepView| #[trigger] dep_prefix(w, old(ts)@) ==> (r matches Ok(d) && d@ == w),
{
    let ghost s = ts@;
    let ghost has = exists|w: DepView| #[trigger] dep_prefix(w, s);
    let ghost w = choose|w: DepView| #[trigger] dep_prefix(w, s);
    let ghost tw = s.take(dep_len(w));
    let mut attrs: Vec<Vec<TokenTree>> = Vec::new();
    let mut failed = false;
    while !failed && punct_at(ts, 0, '#')
        invariant
            !failed ==> ts@ == s.skip(2 * attrs@.len() as int),
            !failed ==> 2 * attrs@.len() <= s.len(),
            !failed ==> forall|j: int| 0 <= j < attrs@.len() ==> #[trigger] attr_at(s, j, attrs@[j]@),
            has ==> dep_prefix(w, s) && tw == s.take(dep_len(w)),
            has ==> !failed && attrs@.len() <= w.attrs.len(),
            has ==> forall|j: int| 0 <= j < attrs@.len() ==> attrs@[j]@ == w.attrs[j],
        decreases s.len() - 2 * attrs@.len() + (if failed {
            0int
        } else {
            1int
        }),
    {
        let ghost k = attrs@.len() as int;
        proof {
            if has && k == w.attrs.len() {
                assert(tw[2 * k] == s[2 * k]);
                assert(s.skip(2 * k)[0] == s[2 * k]);
            }
        }
        let _ = take_front(ts);
        let is_bracket = if ts.len() > 0 {
            match &ts[0] {
                TokenTree::Group(d, _) => *d == Delimiter::Bracket,
                _ => false,
            }
        } else {
            false
        };
        proof {
            assert(s.skip(2 * k).skip(1) =~= s.skip(2 * k + 1));
            if has {
                assert(attr_at(tw, k, w.attrs[k]));
                assert(tw[2 * k + 1] == s[2 * k + 1]);
            }
        }
        if is_bracket {
            match take_front(ts) {
                TokenTree::Group(_, content) => {
                    proof {
                        assert(s.skip(2 * k + 1).skip(1) =~= s.skip(2 * k + 2));
                        assert(attr_at(s, k, content@));
                    }
                    attrs.push(content);
                    proof {
                        assert forall|j: int| 0 <= j < attrs@.len() implies #[trigger] attr_at(s, j, attrs@[j]@) by {
                            if j < k {
                                assert(attr_at(s, j, attrs@[j]@));
                            }
                        }
                    }
                },
                _ => {
                    failed = true;
                },
            }
        } else {
            failed = true;
        }
    }
    if failed {
        return Err(SyntaxError { expected: "square brackets" });
    }
    let ghost a = attrs@.len() as int;
    proof {
        if has {
            if a < w.attrs.len() {
                assert(attr_at(tw, a, w.attrs[a]));
                assert(tw[2 * a] == s[2 * a]);
            }
            assert(tw[2 * a] == s[2 * a]);
        }
    }
    let op = if punct_at(ts, 0, '+') {
        drop_front(ts, 1);
        PluginDependencyOperation::Add
    } else if punct_at(ts, 0, '-') {
        drop_front(ts, 1);
        PluginDependencyOperation::Remove
    } else {
        return Err(SyntaxError { expected: "`-`" });
    };
    proof {
        assert(s.skip(2 * a).skip(1) =~= s.skip(2 * a + 1));
        if has {
            assert(op == w.ty.op);
            if !w.ty.maybe_opt {
                let u = tw.skip(dep_id_start(w));
                lemma_id_first_token(w.id, u);
                assert(u[0] == s[2 * a + 1]);
            } else {
                assert(tw[2 * a + 1] == s[2 * a + 1]);
            }
        }
    }
    let maybe_opt = punct_at(ts, 0, '?');
    if maybe_opt {
        drop_front(ts, 1);
    }
    let ghost start = 2 * a + 1 + (if maybe_opt {
        1int
    } else {
        0int
    });
    proof {
        if maybe_opt {
            assert(s.skip(2 * a + 1).skip(1) =~= s.skip(2 * a + 2));
        }
        assert(ts@ == s.skip(start));
        if has {
            assert(maybe_opt == w.ty.maybe_opt);
            assert(start == dep_id_start(w));
            assert(id_prefix(w.id, s.skip(start)));
        }
    }
    match parse_id(ts) {
        Ok(id) => {
            let d = PluginDep { attrs, ty: PluginDepType { op, maybe_opt }, id };
            proof {
                assert(d@.attrs.len() == a);
                assert(dep_id_start(d@) == start);
                let len = dep_len(d@);
                let t = s.take(len);
                assert forall|j: int| 0 <= j < a implies #[trigger] attr_at(t, j, d@.attrs[j]) by {
                    assert(attr_at(s, j, attrs@[j]@));
                    assert(t[2 * j] == s[2 * j] && t[2 * j + 1] == s[2 * j + 1]);
                }
                assert(t[2 * a] == s[2 * a]);
                assert(s.skip(2 * a)[0] == s[2 * a]);
                if maybe_opt {
                    assert(t[2 * a + 1] == s[2 * a + 1]);
                    assert(s.skip(2 * a + 1)[0] == s[2 * a + 1]);
                }
                assert(t.skip(start) =~= s.skip(start).take(id_len(d@.id)));
                assert(s.skip(start).skip(id_len(d@.id)) =~= s.skip(len));
                assert(dep_prefix(d@, s));
                assert forall|v: DepView| #[trigger] dep_prefix(v, s) implies d@ == v by {
                    lemma_dep_unique(v, d@, s);
                }
            }
            Ok(d)
        },
        Err(e) => Err(e),
    }
}

/// A dependency change followed by a comma or by nothing is not followed by `::`.
proof fn lemma_dep_then_comma(x: DepView, r: Seq<TokenTree>)
    requires
        item_then_comma(x, r, dep_len_fn(), dep_fn()),
    ensures
        dep_prefix(x, r),
{
    let l = dep_len(x);
    let start = dep_id_start(x);
    assert(r.take(l).skip(start) =~= r.skip(start).take(id_len(x.id)));
    assert(r.skip(start).skip(id_len(x.id)) =~= r.skip(l));
    if r.len() > l {
        assert(r.skip(l)[0] == r[l]);
    }
}

/// The dependency changes of a `[ ... ]` list are determined by its tokens.
pub proof fn lemma_deps_unique(w1: DepsView, w2: DepsView, s: Seq<TokenTree>)
    requires
        deps_matches(w1, s),
        deps_matches(w2, s),
    ensures
        w1 == w2,
{
    assert forall|x: DepView, y: DepView, r: Seq<TokenTree>|
        #[trigger] item_then_comma(x, r, dep_len_fn(), dep_fn()) && #[trigger] item_then_comma(
            y,
            r,
            dep_len_fn(),
            dep_fn(),
        ) implies x == y by {
        lemma_dep_then_comma(x, r);
        lemma_dep_then_comma(y, r);
        lemma_dep_unique(x, y, r);
    }
    lemma_list_unique(w1.deps, w1.trailing, w2.deps, w2.trailing, s, dep_len_fn(), dep_fn());
}

/// Parses the dependency changes inside `[ ... ]`: all of `content`.
#[verifier::rlimit(40)]
fn parse_deps(content: Vec<TokenTree>) -> (r: Result<PluginDeps, SyntaxError>)
    ensures
        match r {
            Ok(d) => deps_matches(d@, content@),
            Err(_) => true,
        },
        forall|w: DepsView| #[trigger] deps_matches(w, content@) ==> (r matches Ok(d) && d@ == w),
{
    let ghost s = content@;
    let ghost has = exists|w: DepsView| #[trigger] deps_matches(w, s);
    let ghost w = choose|w: DepsView| #[trigger] deps_matches(w, s);
    let ghost len = dep_len_fn();
    let ghost m = dep_fn();
    let mut ts = content;
    let mut deps: Vec<PluginDep> = Vec::new();
    let mut trailing = false;
    let mut failed = false;
    let ghost mut k: int = 0;
    proof {
        assert(w.deps.skip(0) =~= w.deps);
        assert(s.skip(0) =~= s);
        assert(s.take(0) =~= Seq::<TokenTree>::empty());
    }
    while !failed && ts.len() > 0
        invariant
            len == dep_len_fn(),
            m == dep_fn(),
            !failed ==> 0 <= k <= s.len() && ts@ == s.skip(k),
            !failed ==> (deps@.len() == 0 ==> !trailing),
            !failed ==> (if deps@.len() == 0 || trailing {
                list_rest(deps@.map_values(|d: PluginDep| d@), true, s.take(k), len, m)
            } else {
                k == s.len() && list_rest(deps@.map_values(|d: PluginDep| d@), false, s, len, m)
            }),
            has ==> deps_matches(w, s) && !failed,
            has ==> deps@.len() <= w.deps.len(),
            has ==> deps@.map_values(|d: PluginDep| d@) == w.deps.take(deps@.len() as int),
            has ==> (deps@.len() == 0 || trailing ==> list_rest(
                w.deps.skip(deps@.len() as int),
                w.trailing,
                s.skip(k),
                len,
                m,
            )),
            has ==> (deps@.len() > 0 && !trailing ==> deps@.len() == w.deps.len() && !w.trailing),
            has ==> (trailing && deps@.len() == w.deps.len() ==> w.trailing),
        decreases s.len() - k + (if failed {
            0int
        } else {
            1int
        }),
    {
        let ghost i = deps@.len() as int;
        let ghost before = deps@.map_values(|d: PluginDep| d@);
        proof {
            if has {
                let rest = w.deps.skip(i);
                if rest.len() == 0 {
                    assert(s.skip(k).len() == 0);
                }
                assert(rest[0] == w.deps[i]);
                assert(item_then_comma(rest[0], s.skip(k), len, m));
                lemma_dep_then_comma(rest[0], s.skip(k));
            }
        }
        match parse_dep(&mut ts) {
            Ok(d) => {
                let ghost x = d@;
                let ghost n = dep_len(x);
                proof {
                    assert(s.skip(k).skip(n) =~= s.skip(k + n));
                }
                deps.push(d);
                proof {
                    assert(deps@.map_values(|d: PluginDep| d@) =~= before.push(x));
                    assert(s.skip(k).take(n) =~= s.subrange(k, k + n));
                }
                if ts.len() > 0 {
                    if punct_at(&ts, 0, ',') {
                        drop_front(&mut ts, 1);
                        proof {
                            let r = s.subrange(k, k + n + 1);
                            assert(r.take(n) =~= s.subrange(k, k + n));
                            assert(r[n] == s[k + n]);
                            assert(s.skip(k + n)[0] == s[k + n]);
                            assert(seq![x].skip(1) =~= Seq::<DepView>::empty());
                            assert(r.skip(n + 1).len() == 0);
                            assert(list_rest(seq![x].skip(1), true, r.skip(n + 1), len, m));
                            assert(m(x, r.take(n)));
                            assert(list_rest(seq![x], true, r, len, m));
                            lemma_list_append(before, s.take(k), seq![x], true, r, len, m);
                            assert(before + seq![x] =~= before.push(x));
                            assert(s.take(k) + r =~= s.take(k + n + 1));
                            assert(s.skip(k + n).skip(1) =~= s.skip(k + n + 1));
                            k = k + n + 1;
                            if has {
                                let rest = w.deps.skip(i);
                                assert(rest[0] == x);
                                assert(s.skip(k - n - 1).len() > n);
                                assert(s.skip(k - n - 1).skip(n + 1) =~= s.skip(k));
                                assert(rest.skip(1) =~= w.deps.skip(i + 1));
                                assert(w.deps.take(i + 1) =~= w.deps.take(i).push(w.deps[i]));
                            }
                        }
                        trailing = true;
                    } else {
                        proof {
                            if has {
                                assert(s.skip(k + n)[0] == s[k + n]);
                                assert(s.skip(k)[n] == s[k + n]);
                            }
                        }
                        failed = true;
                    }
                } else {
                    proof {
                        let r = s.skip(k);
                        assert(r.take(n) =~= s.subrange(k, k + n));
                        assert(seq![x].skip(1) =~= Seq::<DepView>::empty());
                        assert(m(x, r.take(n)));
                        assert(list_rest(seq![x], false, r, len, m));
                        lemma_list_append(before, s.take(k), seq![x], false, r, len, m);
                        assert(before + seq![x] =~= before.push(x));
                        assert(s.take(k) + r =~= s);
                        k = s.len() as int;
                        if has {
                            assert(w.deps.take(i + 1) =~= w.deps.take(i).push(w.deps[i]));
                        }
                    }
                    trailing = false;
                }
            },
            Err(_) => {
                failed = true;
            },
        }
    }
    if failed {
        return Err(SyntaxError { expected: "`,`" });
    }
    let result = PluginDeps { deps, trailing_comma: trailing };
    proof {
        let dv = deps@.map_values(|d: PluginDep| d@);
        assert(result@.deps == dv);
        if deps@.len() == 0 || trailing {
            assert(s.take(k) =~= s);
        }
        assert(deps_matches(result@, s));
        if has {
            if deps@.len() == 0 || trailing {
                let rest = w.deps.skip(deps@.len() as int);
                if rest.len() > 0 {
                    assert(0 < len(rest[0]));
                }
            }
            assert(w.deps.take(w.deps.len() as int) =~= w.deps);
        }
        assert forall|v: DepsView| #[trigger] deps_matches(v, s) implies result@ == v by {
            lemma_deps_unique(v, result@, s);
        }
    }
    Ok(result)
}

/// A property with its dependency changes is determined by its tokens.
pub proof fn lemma_deps_with_id_unique(w1: DepsWithIdView, w2: DepsWithIdView, t: Seq<TokenTree>)
    requires
        deps_with_id_matches(w1, t),
        deps_with_id_matches(w2, t),
    ensures
        w1 == w2,
{
    if let TokenTree::Group(_, v) = t[2] {
        lemma_deps_unique(w1.deps, w2.deps, v@);
    }
}

/// Parses `PROPERTY: [ ... ]` from the front of `ts`.
fn parse_deps_with_id(ts: &mut Vec<TokenTree>) -> (r: Result<PluginDepsWithId, SyntaxError>)
    ensures
        match r {
            Ok(g) => {
                &&& 3 <= old(ts)@.len()
                &&& deps_with_id_matches(g@, old(ts)@.take(3))
                &&& final(ts)@ == old(ts)@.skip(3)
            },
            Err(_) => true,
        },
        forall|w: DepsWithIdView|
            3 <= old(ts)@.len() && #[trigger] deps_with_id_matches(w, old(ts)@.take(3)) ==> (r matches Ok(g)
                && g@ == w),
{
    let ghost s = ts@;
    let ident_ok = if ts.len() >= 3 {
        match &ts[0] {
            TokenTree::Ident(x, _) => !is_keyword_text(x),
            _ => false,
        }
    } else {
        false
    };
    let colon_ok = punct_at(ts, 1, ':');
    let group_ok = if ts.len() >= 3 {
        match &ts[2] {
            TokenTree::Group(d, _) => *d == Delimiter::Bracket,
            _ => false,
        }
    } else {
        false
    };
    proof {
        if s.len() >= 3 {
            let t = s.take(3);
            assert(t[0] == s[0] && t[1] == s[1] && t[2] == s[2]);
        }
    }
    if !(ident_ok && colon_ok && group_ok) {
        return Err(SyntaxError { expected: "`property: [...]`" });
    }
    let first = take_front(ts);
    drop_front(ts, 1);
    let third = take_front(ts);
    proof {
        assert(s.skip(1).skip(1) =~= s.skip(2));
        assert(s.skip(2).skip(1) =~= s.skip(3));
        assert(first == s[0]);
        assert(third == s[2]);
    }
    match (first, third) {
        (TokenTree::Ident(ident, span), TokenTree::Group(_, content)) => {
            let ghost inner = content@;
            match parse_deps(content) {
                Ok(deps) => {
                    let g = PluginDepsWithId { ident, span, deps };
                    proof {
                        let t = s.take(3);
                        assert(t[0] == s[0] && t[1] == s[1] && t[2] == s[2]);
                        assert(deps_with_id_matches(g@, t));
                        assert forall|w: DepsWithIdView|
                            3 <= s.len() && #[trigger] deps_with_id_matches(w, s.take(3)) implies g@ == w by {
                            lemma_deps_with_id_unique(w, g@, t);
                        }
                    }
                    Ok(g)
                },
                Err(e) => {
                    proof {
                        assert forall|w: DepsWithIdView|
                            3 <= s.len() && #[trigger] deps_with_id_matches(w, s.take(3)) implies false by {
                            let t = s.take(3);
                            assert(t[2] == s[2]);
                            assert(deps_matches(w.deps, inner));
                        }
                    }
                    Err(e)
                },
            }
        },
        _ => Err(SyntaxError { expected: "`property: [...]`" }),
    }
}

/// The properties of a `{ ... }` list are determined by its tokens.
pub proof fn lemma_deps_with_id_list_unique(
    a: Seq<DepsWithIdView>,
    ta: bool,
    b: Seq<DepsWithIdView>,
    tb: bool,
    s: Seq<TokenTree>,
)
    requires
        list_matches(a, ta, s, deps_with_id_len_fn(), deps_with_id_fn()),
        list_matches(b, tb, s, deps_with_id_len_fn(), deps_with_id_fn()),
    ensures
        a == b,
        ta == tb,
{
    assert forall|x: DepsWithIdView, y: DepsWithIdView, r: Seq<TokenTree>|
        #[trigger] item_then_comma(x, r, deps_with_id_len_fn(), deps_with_id_fn()) && #[trigger] item_then_comma(
            y,
            r,
            deps_with_id_len_fn(),
            deps_with_id_fn(),
        ) implies x == y by {
        lemma_deps_with_id_unique(x, y, r.take(3));
    }
    lemma_list_unique(a, ta, b, tb, s, deps_with_id_len_fn(), deps_with_id_fn());
}

/// Parses the properties inside `{ ... }`: all of `content`.
#[verifier::rlimit(40)]
fn parse_deps_with_id_list(content: Vec<TokenTree>) -> (r: Result<(Vec<PluginDepsWithId>, bool), SyntaxError>)
    ensures
        match r {
            Ok((v, t)) => list_matches(
                v@.map_values(|g: PluginDepsWithId| g@),
                t,
                content@,
                deps_with_id_len_fn(),
                deps_with_id_fn(),
            ),
            Err(_) => true,
        },
        forall|w: Seq<DepsWithIdView>, wt: bool|
            #[trigger] list_matches(w, wt, content@, deps_with_id_len_fn(), deps_with_id_fn()) ==> (r matches Ok(
                (v, t),
            ) && v@.map_values(|g: PluginDepsWithId| g@) == w && t == wt),
{
    let ghost s = content@;
    let ghost len = deps_with_id_len_fn();
    let ghost m = deps_with_id_fn();
    let ghost has = exists|w: Seq<DepsWithIdView>, wt: bool| #[trigger] list_matches(w, wt, s, len, m);
    let ghost pick: (Seq<DepsWithIdView>, bool) = choose|w: Seq<DepsWithIdView>, wt: bool|
        #[trigger] list_matches(w, wt, s, len, m);
    let ghost ws = pick.0;
    let ghost wt = pick.1;
    let mut ts = content;
    let mut items: Vec<PluginDepsWithId> = Vec::new();
    let mut trailing = false;
    let mut failed = false;
    let ghost mut k: int = 0;
    proof {
        assert(ws.skip(0) =~= ws);
        assert(s.skip(0) =~= s);
        assert(s.take(0) =~= Seq::<TokenTree>::empty());
    }
    while !failed && ts.len() > 0
        invariant
            len == deps_with_id_len_fn(),
            m == deps_with_id_fn(),
            !failed ==> 0 <= k <= s.len() && ts@ == s.skip(k),
            !failed ==> (items@.len() == 0 ==> !trailing),
            !failed ==> (if items@.len() == 0 || trailing {
                list_rest(items@.map_values(|g: PluginDepsWithId| g@), true, s.take(k), len, m)
            } else {
                k == s.len() && list_rest(items@.map_values(|g: PluginDepsWithId| g@), false, s, len, m)
            }),
            has ==> list_matches(ws, wt, s, len, m) && !failed,
            has ==> items@.len() <= ws.len(),
            has ==> items@.map_values(|g: PluginDepsWithId| g@) == ws.take(items@.len() as int),
            has ==> (items@.len() == 0 || trailing ==> list_rest(ws.skip(items@.len() as int), wt, s.skip(k), len, m)),
            has ==> (items@.len() > 0 && !trailing ==> items@.len() == ws.len() && !wt),
            has ==> (trailing && items@.len() == ws.len() ==> wt),
        decreases s.len() - k + (if failed {
            0int
        } else {
            1int
        }),
    {
        let ghost i = items@.len() as int;
        let ghost before = items@.map_values(|g: PluginDepsWithId| g@);
        proof {
            if has {
                let rest = ws.skip(i);
                if rest.len() == 0 {
                    assert(s.skip(k).len() == 0);
                }
                assert(rest[0] == ws[i]);
                assert(m(rest[0], s.skip(k).take(3)));
            }
        }
        match parse_deps_with_id(&mut ts) {
            Ok(g) => {
                let ghost x = g@;
                let ghost n = 3int;
                proof {
                    assert(s.skip(k).skip(n) =~= s.skip(k + n));
                }
                items.push(g);
                proof {
                    assert(items@.map_values(|g: PluginDepsWithId| g@) =~= before.push(x));
                    assert(s.skip(k).take(n) =~= s.subrange(k, k + n));
                }
                if ts.len() > 0 {
                    if punct_at(&ts, 0, ',') {
                        drop_front(&mut ts, 1);
                        proof {
                            let r = s.subrange(k, k + n + 1);
                            assert(r.take(n) =~= s.subrange(k, k + n));
                            assert(r[n] == s[k + n]);
                            assert(s.skip(k + n)[0] == s[k + n]);
                            assert(seq![x].skip(1) =~= Seq::<DepsWithIdView>::empty());
                            assert(r.skip(n + 1).len() == 0);
                            assert(list_rest(seq![x].skip(1), true, r.skip(n + 1), len, m));
                            assert(m(x, r.take(n)));
                            assert(list_rest(seq![x], true, r, len, m));
                            lemma_list_append(before, s.take(k), seq![x], true, r, len, m);
                            assert(before + seq![x] =~= before.push(x));
                            assert(s.take(k) + r =~= s.take(k + n + 1));
                            assert(s.skip(k + n).skip(1) =~= s.skip(k + n + 1));
                            k = k + n + 1;
                            if has {
                                let rest = ws.skip(i);
                                assert(rest[0] == x);
                                assert(s.skip(k - n - 1).len() > n);
                                assert(s.skip(k - n - 1).skip(n + 1) =~= s.skip(k));
                                assert(rest.skip(1) =~= ws.skip(i + 1));
                                assert(ws.take(i + 1) =~= ws.take(i).push(ws[i]));
                            }
                        }
                        trailing = true;
                    } else {
                        proof {
                            if has {
                                assert(s.skip(k + n)[0] == s[k + n]);
                                assert(s.skip(k)[n] == s[k + n]);
                            }
                        }
                        failed = true;
                    }
                } else {
                    proof {
                        let r = s.skip(k);
                        assert(r.take(n) =~= s.subrange(k, k + n));
                        assert(seq![x].skip(1) =~= Seq::<DepsWithIdView>::empty());
                        assert(m(x, r.take(n)));
                        assert(list_rest(seq![x], false, r, len, m));
                        lemma_list_append(before, s.take(k), seq![x], false, r, len, m);
                        assert(before + seq![x] =~= before.push(x));
                        assert(s.take(k) + r =~= s);
                        k = s.len() as int;
                        if has {
                            assert(ws.take(i + 1) =~= ws.take(i).push(ws[i]));
                        }
                    }
                    trailing = false;
                }
            },
            Err(_) => {
                failed = true;
            },
        }
    }
    if failed {
        return Err(SyntaxError { expected: "`,`" });
    }
    proof {
        let iv = items@.map_values(|g: PluginDepsWithId| g@);
        if items@.len() == 0 || trailing {
            assert(s.take(k) =~= s);
        }
        assert(list_matches(iv, trailing, s, len, m));
        assert forall|w: Seq<DepsWithIdView>, t: bool| #[trigger] list_matches(w, t, s, len, m) implies iv == w
            && trailing == t by {
            lemma_deps_with_id_list_unique(w, t, iv, trailing, s);
        }
    }
    Ok((items, trailing))
}

/// `s` starts with the entry `e`.
pub open spec fn entry_prefix(e: EntryView, s: Seq<TokenTree>) -> bool {
    entry_len(e) <= s.len() && entry_matches(e, s.take(entry_len(e)))
}

/// The id of an entry that starts `s` starts `s`, and no `::` follows it.
proof fn lemma_entry_id(e: EntryView, s: Seq<TokenTree>)
    requires
        entry_prefix(e, s),
    ensures
        id_prefix(e.id, s),
{
    let n = id_len(e.id);
    let g = entry_group_at(e);
    let t = s.take(entry_len(e));
    assert(t.take(n) =~= s.take(n));
    assert(t[g] == s[g]);
    assert(s.skip(n)[g - n] == s[g]);
}

/// An entry is determined by the tokens it starts.
pub proof fn lemma_entry_unique(w1: EntryView, w2: EntryView, s: Seq<TokenTree>)
    requires
        entry_prefix(w1, s),
        entry_prefix(w2, s),
    ensures
        w1 == w2,
{
    lemma_entry_id(w1, s);
    lemma_entry_id(w2, s);
    lemma_id_unique(w1.id, w2.id, s);
    let n = id_len(w1.id);
    let t1 = s.take(entry_len(w1));
    let t2 = s.take(entry_len(w2));
    assert(t1[n] == s[n] && t2[n] == s[n]);
    let g = entry_group_at(w1);
    assert(w1.semi == w2.semi);
    assert(t1[g] == s[g] && t2[g] == s[g]);
    if let TokenTree::Group(_, v) = s[g] {
        lemma_deps_with_id_list_unique(w1.deps, w1.trailing, w2.deps, w2.trailing, v@);
    }
}

/// Parses `ID: { ... }` from the front of `ts`.
fn parse_entry(ts: &mut Vec<TokenTree>) -> (r: Result<PluginPatchEntry, SyntaxError>)
    ensures
        match r {
            Ok(e) => entry_prefix(e@, old(ts)@) && final(ts)@ == old(ts)@.skip(entry_len(e@)),
            Err(_) => true,
        },
        forall|w: EntryView| #[trigger] entry_prefix(w, old(ts)@) ==> (r matches Ok(e) && e@ == w),
{
    let ghost s = ts@;
    proof {
        assert forall|w: EntryView| #[trigger] entry_prefix(w, s) implies id_prefix(w.id, s) by {
            lemma_entry_id(w, s);
        }
    }
    let id = match parse_id(ts) {
        Ok(id) => id,
        Err(e) => {
            proof {
                assert forall|w: EntryView| #[trigger] entry_prefix(w, s) implies false by {
                    assert(id_prefix(w.id, s));
                }
            }
            return Err(e);
        },
    };
    let ghost n = id_len(id@);
    proof {
        assert forall|w: EntryView| #[trigger] entry_prefix(w, s) implies w.id == id@ by {
            assert(id_prefix(w.id, s));
        }
    }
    let semi = punct_at(ts, 0, ':');
    proof {
        assert(ts@ == s.skip(n));
        assert forall|w: EntryView| #[trigger] entry_prefix(w, s) implies w.semi == semi && entry_group_at(w) == n
            + (if semi {
            1int
        } else {
            0int
        }) by {
            let t = s.take(entry_len(w));
            assert(t[n] == s[n]);
            assert(s.skip(n)[0] == s[n]);
            assert(t[entry_group_at(w)] == s[entry_group_at(w)]);
        }
    }
    if semi {
        drop_front(ts, 1);
        proof {
            assert(s.skip(n).skip(1) =~= s.skip(n + 1));
        }
    }
    let ghost g = n + (if semi {
        1int
    } else {
        0int
    });
    let group_ok = if ts.len() > 0 {
        match &ts[0] {
            TokenTree::Group(d, _) => *d == Delimiter::Brace,
            _ => false,
        }
    } else {
        false
    };
    proof {
        assert forall|w: EntryView| #[trigger] entry_prefix(w, s) implies group_ok by {
            let t = s.take(entry_len(w));
            assert(t[g] == s[g]);
            assert(s.skip(g)[0] == s[g]);
        }
    }
    if !group_ok {
        return Err(SyntaxError { expected: "curly braces" });
    }
    let group = take_front(ts);
    proof {
        assert(s.skip(g).skip(1) =~= s.skip(g + 1));
        assert(group == s[g]);
    }
    match group {
        TokenTree::Group(_, content) => {
            let ghost inner = content@;
            match parse_deps_with_id_list(content) {
                Ok((deps, trailing)) => {
                    let e = PluginPatchEntry { id, semi, deps, trailing_comma: trailing };
                    proof {
                        let t = s.take(g + 1);
                        assert(entry_len(e@) == g + 1);
                        assert(t.take(n) =~= s.take(n));
                        assert(t[n] == s[n] && t[g] == s[g]);
                        assert(s.skip(n)[0] == s[n]);
                        assert(entry_prefix(e@, s));
                        assert forall|w: EntryView| #[trigger] entry_prefix(w, s) implies e@ == w by {
                            lemma_entry_unique(w, e@, s);
                        }
                    }
                    Ok(e)
                },
                Err(err) => {
                    proof {
                        assert forall|w: EntryView| #[trigger] entry_prefix(w, s) implies false by {
                            let t = s.take(entry_len(w));
                            assert(t[g] == s[g]);
                            assert(list_matches(w.deps, w.trailing, inner, deps_with_id_len_fn(), deps_with_id_fn()));
                        }
                    }
                    Err(err)
                },
            }
        },
        _ => Err(SyntaxError { expected: "curly braces" }),
    }
}

/// A patch is determined by its tokens: the grammar is unambiguous.
pub proof fn lemma_patch_unique(a: PatchView, b: PatchView, s: Seq<TokenTree>)
    requires
        patch_matches(a, s),
        patch_matches(b, s),
    ensures
        a == b,
{
    assert forall|x: EntryView, y: EntryView, r: Seq<TokenTree>|
        #[trigger] item_then_comma(x, r, entry_len_fn(), entry_fn()) && #[trigger] item_then_comma(
            y,
            r,
            entry_len_fn(),
            entry_fn(),
        ) implies x == y by {
        lemma_entry_unique(x, y, r);
    }
    lemma_list_unique(a.entries, a.trailing, b.entries, b.trailing, s, entry_len_fn(), entry_fn());
}

/// Parses a whole patch: all of `tokens`.
#[verifier::rlimit(40)]
pub fn parse_patch(tokens: Vec<TokenTree>) -> (r: Result<PluginPatch, SyntaxError>)
    ensures
        match r {
            Ok(p) => patch_matches(p@, tokens@),
            Err(_) => !exists|w: PatchView| #[trigger] patch_matches(w, tokens@),
        },
        forall|w: PatchView| #[trigger] patch_matches(w, tokens@) ==> (r matches Ok(p) && p@ == w),
{
    let ghost s = tokens@;
    let ghost len = entry_len_fn();
    let ghost m = entry_fn();
    let ghost has = exists|w: PatchView| #[trigger] patch_matches(w, s);
    let ghost w = choose|w: PatchView| #[trigger] patch_matches(w, s);
    let ghost ws = w.entries;
    let ghost wt = w.trailing;
    let mut ts = tokens;
    let mut items: Vec<PluginPatchEntry> = Vec::new();
    let mut trailing = false;
    let mut failed = false;
    let ghost mut k: int = 0;
    proof {
        assert(ws.skip(0) =~= ws);
        assert(s.skip(0) =~= s);
        assert(s.take(0) =~= Seq::<TokenTree>::empty());
    }
    while !failed && ts.len() > 0
        invariant
            len == entry_len_fn(),
            m == entry_fn(),
            ws == w.entries,
            wt == w.trailing,
            !failed ==> 0 <= k <= s.len() && ts@ == s.skip(k),
            !failed ==> (items@.len() == 0 ==> !trailing),
            !failed ==> (if items@.len() == 0 || trailing {
                list_rest(items@.map_values(|e: PluginPatchEntry| e@), true, s.take(k), len, m)
            } else {
                k == s.len() && list_rest(items@.map_values(|e: PluginPatchEntry| e@), false, s, len, m)
            }),
            has ==> patch_matches(w, s) && !failed,
            has ==> items@.len() <= ws.len(),
            has ==> items@.map_values(|e: PluginPatchEntry| e@) == ws.take(items@.len() as int),
            has ==> (items@.len() == 0 || trailing ==> list_rest(ws.skip(items@.len() as int), wt, s.skip(k), len, m)),
            has ==> (items@.len() > 0 && !trailing ==> items@.len() == ws.len() && !wt),
            has ==> (trailing && items@.len() == ws.len() ==> wt),
        decreases s.len() - k + (if failed {
            0int
        } else {
            1int
        }),
    {
        let ghost i = items@.len() as int;
        let ghost before = items@.map_values(|e: PluginPatchEntry| e@);
        proof {
            if has {
                let rest = ws.skip(i);
                if rest.len() == 0 {
                    assert(s.skip(k).len() == 0);
                }
                assert(rest[0] == ws[i]);
                assert(m(rest[0], s.skip(k).take(len(rest[0]))));
                assert(entry_prefix(rest[0], s.skip(k)));
            }
        }
        match parse_entry(&mut ts) {
            Ok(e) => {
                let ghost x = e@;
                let ghost n = entry_len(x);
                proof {
                    assert(s.skip(k).skip(n) =~= s.skip(k + n));
                }
                items.push(e);
                proof {
                    assert(items@.map_values(|e: PluginPatchEntry| e@) =~= before.push(x));
                    assert(s.skip(k).take(n) =~= s.subrange(k, k + n));
                }
                if ts.len() > 0 {
                    if punct_at(&ts, 0, ',') {
                        drop_front(&mut ts, 1);
                        proof {
                            let r = s.subrange(k, k + n + 1);
                            assert(r.take(n) =~= s.subrange(k, k + n));
                            assert(r[n] == s[k + n]);
                            assert(s.skip(k + n)[0] == s[k + n]);
                            assert(seq![x].skip(1) =~= Seq::<EntryView>::empty());
                            assert(r.skip(n + 1).len() == 0);
                            assert(list_rest(seq![x].skip(1), true, r.skip(n + 1), len, m));
                            assert(m(x, r.take(n)));
                            assert(list_rest(seq![x], true, r, len, m));
                            lemma_list_append(before, s.take(k), seq![x], true, r, len, m);
                            assert(before + seq![x] =~= before.push(x));
                            assert(s.take(k) + r =~= s.take(k + n + 1));
                            assert(s.skip(k + n).skip(1) =~= s.skip(k + n + 1));
                            k = k + n + 1;
                            if has {
                                let rest = ws.skip(i);
                                assert(rest[0] == x);
                                assert(s.skip(k - n - 1).len() > n);
                                assert(s.skip(k - n - 1).skip(n + 1) =~= s.skip(k));
                                assert(rest.skip(1) =~= ws.skip(i + 1));
                                assert(ws.take(i + 1) =~= ws.take(i).push(ws[i]));
                            }
                        }
                        trailing = true;
                    } else {
                        proof {
                            if has {
                                assert(s.skip(k + n)[0] == s[k + n]);
                                assert(s.skip(k)[n] == s[k + n]);
                            }
                        }
                        failed = true;
                    }
                } else {
                    proof {
                        let r = s.skip(k);
                        assert(r.take(n) =~= s.subrange(k, k + n));
                        assert(seq![x].skip(1) =~= Seq::<EntryView>::empty());
                        assert(m(x, r.take(n)));
                        assert(list_rest(seq![x], false, r, len, m));
                        lemma_list_append(before, s.take(k), seq![x], false, r, len, m);
                        assert(before + seq![x] =~= before.push(x));
                        assert(s.take(k) + r =~= s);
                        k = s.len() as int;
                        if has {
                            assert(ws.take(i + 1) =~= ws.take(i).push(ws[i]));
                        }
                    }
                    trailing = false;
                }
            },
            Err(_) => {
                failed = true;
            },
        }
    }
    if failed {
        return Err(SyntaxError { expected: "`,`" });
    }
    let p = PluginPatch { entries: items, trailing_comma: trailing };
    proof {
        let iv = p@.entries;
        if iv.len() == 0 || trailing {
            assert(s.take(k) =~= s);
        }
        assert(patch_matches(p@, s));
        assert forall|v: PatchView| #[trigger] patch_matches(v, s) implies p@ == v by {
            lemma_patch_unique(v, p@, s);
        }
    }
    Ok(p)
}

} // verus!
