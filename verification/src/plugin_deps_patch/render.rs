//! The tokens of the expression that builds a patch's `PluginDependencyPatch`:
//!
//! ```text
//! CRATE::prelude::PluginDependencyPatch::new(CRATE::prelude::bevy_platform::prelude::vec![
//!     (ID, CRATE::prelude::bevy_platform::prelude::vec![
//!         #[attr] CRATE::prelude::UpdatePluginDependency::OP(
//!             CRATE::prelude::PluginDependency::KIND(ID)
//!         ),
//!         ...
//!     ].into_iter().collect()),
//!     ...
//! ])
//! ```
//!
//! where `ID` is `CRATE::prelude::PluginId::from("literal")` or
//! `CRATE::prelude::PluginId::of::<path>()`, and `CRATE` is the path of the crate.

use super::input::{
    attr_at, colons_before, lead_len, lemma_list_append, lemma_list_comma, list_matches, list_rest, IdView,
    PluginId, TypePath,
};
use super::out::{
    lemma_skip_first, take_first, DependencyKind, DependencyOp, DependencyOutView, EntryOutView,
    PluginPatchDependencyOutput, PluginPatchEntryOutput, PluginPatchOutput,
};
use super::token::{is_group, is_ident, is_punct, is_str_literal, starts_with_colons, Delimiter, TokenTree};
use vstd::prelude::*;

verus! {

/// The number of tokens of a path of `n` words.
pub open spec fn path_tokens_len(leading_colon: bool, n: int) -> int {
    lead_len(leading_colon) + if n == 0 {
        0
    } else {
        3 * n - 2
    }
}

/// Word `i` of a path written in `s` is `word`.
pub open spec fn word_at(s: Seq<TokenTree>, leading_colon: bool, i: int, word: Seq<char>) -> bool {
    is_ident(s[lead_len(leading_colon) + 3 * i], word)
}

/// `s` is exactly the path of the given words, separated by `::`, after `::` if
/// `leading_colon`.
pub open spec fn path_tokens(leading_colon: bool, words: Seq<Seq<char>>, s: Seq<TokenTree>) -> bool {
    &&& s.len() == path_tokens_len(leading_colon, words.len() as int)
    &&& leading_colon ==> starts_with_colons(s)
    &&& forall|i: int| 0 <= i < words.len() ==> #[trigger] word_at(s, leading_colon, i, words[i])
    &&& forall|i: int| 0 < i < words.len() ==> #[trigger] colons_before(s, leading_colon, i)
}

/// The words of `CRATE::prelude::rest...`.
pub open spec fn prelude_path(crate_words: Seq<Seq<char>>, rest: Seq<Seq<char>>) -> Seq<Seq<char>> {
    crate_words + seq!["prelude"@] + rest
}

/// The tokens of the path `CRATE::prelude::rest...` start `s` at `start`.
pub open spec fn prelude_path_at(
    s: Seq<TokenTree>,
    start: int,
    leading_colon: bool,
    crate_words: Seq<Seq<char>>,
    rest: Seq<Seq<char>>,
) -> bool {
    let n = path_tokens_len(leading_colon, (crate_words.len() + 1 + rest.len()) as int);
    &&& 0 <= start
    &&& start + n <= s.len()
    &&& path_tokens(leading_colon, prelude_path(crate_words, rest), s.subrange(start, start + n))
}

/// The number of tokens of `CRATE::prelude::` followed by `k` more words.
pub open spec fn prelude_len(leading_colon: bool, crate_words: Seq<Seq<char>>, k: int) -> int {
    path_tokens_len(leading_colon, crate_words.len() + 1 + k)
}

/// The number of tokens of a plugin id's expression.
pub open spec fn id_tokens_len(id: IdView, leading_colon: bool, crate_words: Seq<Seq<char>>) -> int {
    match id {
        IdView::Literal(_) => prelude_len(leading_colon, crate_words, 2) + 1,
        IdView::Path(l, words) => prelude_len(leading_colon, crate_words, 2) + 3 + path_tokens_len(
            l,
            words.len() as int,
        ) + 2,
    }
}

/// `s` is exactly the expression of the plugin id `id`:
/// `CRATE::prelude::PluginId::from("...")` or `CRATE::prelude::PluginId::of::<path>()`.
pub open spec fn id_tokens(id: IdView, leading_colon: bool, crate_words: Seq<Seq<char>>, s: Seq<TokenTree>) -> bool {
    let p = prelude_len(leading_colon, crate_words, 2);
    &&& s.len() == id_tokens_len(id, leading_colon, crate_words)
    &&& match id {
        IdView::Literal(text) => {
            &&& prelude_path_at(s, 0, leading_colon, crate_words, seq!["PluginId"@, "from"@])
            &&& s[p] matches TokenTree::Group(d, v) && d == Delimiter::Parenthesis && v@.len() == 1
                && is_str_literal(v@[0], text)
        },
        IdView::Path(l, words) => {
            let q = path_tokens_len(l, words.len() as int);
            &&& prelude_path_at(s, 0, leading_colon, crate_words, seq!["PluginId"@, "of"@])
            &&& starts_with_colons(s.skip(p))
            &&& is_punct(s[p + 2], '<')
            &&& path_tokens(l, words, s.subrange(p + 3, p + 3 + q))
            &&& is_punct(s[p + 3 + q], '>')
            &&& is_group(s[p + 4 + q], Delimiter::Parenthesis, Seq::empty())
        },
    }
}

/// The word of an update.
pub open spec fn op_word(op: DependencyOp) -> Seq<char> {
    match op {
        DependencyOp::AddBefore => "AddBefore"@,
        DependencyOp::AddAfter => "AddAfter"@,
        DependencyOp::RemoveBefore => "RemoveBefore"@,
        DependencyOp::RemoveAfter => "RemoveAfter"@,
    }
}

/// The word of a dependency kind.
pub open spec fn kind_word(kind: DependencyKind) -> Seq<char> {
    match kind {
        DependencyKind::Required => "Required"@,
        DependencyKind::Optional => "Optional"@,
    }
}

/// `s` is exactly `CRATE::prelude::PluginDependency::KIND(ID)`.
pub open spec fn kind_tokens(
    kind: DependencyKind,
    id: IdView,
    leading_colon: bool,
    crate_words: Seq<Seq<char>>,
    s: Seq<TokenTree>,
) -> bool {
    let p = prelude_len(leading_colon, crate_words, 2);
    &&& s.len() == p + 1
    &&& prelude_path_at(s, 0, leading_colon, crate_words, seq!["PluginDependency"@, kind_word(kind)])
    &&& s[p] matches TokenTree::Group(g, v) && g == Delimiter::Parenthesis && id_tokens(id, leading_colon, crate_words, v@)
}

/// The number of tokens of an update's expression.
pub open spec fn dep_tokens_len(d: DependencyOutView, leading_colon: bool, crate_words: Seq<Seq<char>>) -> int {
    2 * d.attrs.len() + prelude_len(leading_colon, crate_words, 2) + 1
}

/// `s` is exactly `#[attr]... CRATE::prelude::UpdatePluginDependency::OP(...)` for the
/// update `d`.
pub open spec fn dep_tokens(d: DependencyOutView, leading_colon: bool, crate_words: Seq<Seq<char>>, s: Seq<TokenTree>) -> bool {
    let a = 2 * d.attrs.len() as int;
    let p = prelude_len(leading_colon, crate_words, 2);
    &&& s.len() == dep_tokens_len(d, leading_colon, crate_words)
    &&& forall|j: int| 0 <= j < d.attrs.len() ==> #[trigger] attr_at(s, j, d.attrs[j])
    &&& prelude_path_at(s, a, leading_colon, crate_words, seq!["UpdatePluginDependency"@, op_word(d.op)])
    &&& s[a + p] matches TokenTree::Group(g, v) && g == Delimiter::Parenthesis && kind_tokens(
        d.kind,
        d.id,
        leading_colon,
        crate_words,
        v@,
    )
}

/// The length of an update's expression, as a function value.
pub open spec fn dep_tokens_len_fn(leading_colon: bool, crate_words: Seq<Seq<char>>) -> spec_fn(DependencyOutView) -> int {
    |d: DependencyOutView| dep_tokens_len(d, leading_colon, crate_words)
}

/// The relation of an update and its expression, as a function value.
pub open spec fn dep_tokens_fn(leading_colon: bool, crate_words: Seq<Seq<char>>) -> spec_fn(
    DependencyOutView,
    Seq<TokenTree>,
) -> bool {
    |d: DependencyOutView, t: Seq<TokenTree>| dep_tokens(d, leading_colon, crate_words, t)
}

/// `s` is exactly `CRATE::prelude::bevy_platform::prelude::vec` then `!`, then square
/// brackets around tokens that `inner` holds of.
pub open spec fn vec_tokens(
    leading_colon: bool,
    crate_words: Seq<Seq<char>>,
    s: Seq<TokenTree>,
    inner: spec_fn(Seq<TokenTree>) -> bool,
) -> bool {
    let v = prelude_len(leading_colon, crate_words, 3);
    &&& s.len() == v + 2
    &&& prelude_path_at(s, 0, leading_colon, crate_words, seq!["bevy_platform"@, "prelude"@, "vec"@])
    &&& is_punct(s[v], '!')
    &&& s[v + 1] matches TokenTree::Group(g, w) && g == Delimiter::Bracket && inner(w@)
}

/// `s` is exactly the inside of an entry's parentheses:
/// `ID, CRATE::prelude::bevy_platform::prelude::vec![UPDATE, ...].into_iter().collect()`.
pub open spec fn entry_tokens(e: EntryOutView, leading_colon: bool, crate_words: Seq<Seq<char>>, s: Seq<TokenTree>) -> bool {
    let i = id_tokens_len(e.id, leading_colon, crate_words);
    let v = prelude_len(leading_colon, crate_words, 3);
    &&& s.len() == i + v + 9
    &&& id_tokens(e.id, leading_colon, crate_words, s.take(i))
    &&& is_punct(s[i], ',')
    &&& vec_tokens(
        leading_colon,
        crate_words,
        s.subrange(i + 1, i + v + 3),
        |w: Seq<TokenTree>|
            list_matches(
                e.dependencies,
                false,
                w,
                dep_tokens_len_fn(leading_colon, crate_words),
                dep_tokens_fn(leading_colon, crate_words),
            ),
    )
    &&& is_punct(s[i + v + 3], '.')
    &&& is_ident(s[i + v + 4], "into_iter"@)
    &&& is_group(s[i + v + 5], Delimiter::Parenthesis, Seq::empty())
    &&& is_punct(s[i + v + 6], '.')
    &&& is_ident(s[i + v + 7], "collect"@)
    &&& is_group(s[i + v + 8], Delimiter::Parenthesis, Seq::empty())
}

/// The relation of an entry and its parenthesised expression (one token), as a function
/// value.
pub open spec fn entry_tokens_fn(leading_colon: bool, crate_words: Seq<Seq<char>>) -> spec_fn(
    EntryOutView,
    Seq<TokenTree>,
) -> bool {
    |e: EntryOutView, t: Seq<TokenTree>|
        t.len() == 1 && (t[0] matches TokenTree::Group(g, v) && g == Delimiter::Parenthesis && entry_tokens(
            e,
            leading_colon,
            crate_words,
            v@,
        ))
}

/// An entry's expression is one token, as a function value.
pub open spec fn entry_tokens_len_fn() -> spec_fn(EntryOutView) -> int {
    |e: EntryOutView| 1int
}

/// `s` is exactly the expression that builds the patch of the updates `out`:
/// `CRATE::prelude::PluginDependencyPatch::new(CRATE::...::vec![(ENTRY), ...])`.
pub open spec fn patch_tokens(out: Seq<EntryOutView>, leading_colon: bool, crate_words: Seq<Seq<char>>, s: Seq<TokenTree>) -> bool {
    let n = prelude_len(leading_colon, crate_words, 2);
    &&& s.len() == n + 1
    &&& prelude_path_at(s, 0, leading_colon, crate_words, seq!["PluginDependencyPatch"@, "new"@])
    &&& s[n] matches TokenTree::Group(g, v) && g == Delimiter::Parenthesis && vec_tokens(
        leading_colon,
        crate_words,
        v@,
        |w: Seq<TokenTree>| list_matches(out, false, w, entry_tokens_len_fn(), entry_tokens_fn(leading_colon, crate_words)),
    )
}

/// An identifier token.
fn ident(word: &str) -> (r: TokenTree)
    ensures
        is_ident(r, word@),
{
    TokenTree::Ident(word.to_owned(), None)
}

/// A punctuation token not joined to the next one.
fn punct(c: char) -> (r: TokenTree)
    ensures
        r == TokenTree::Punct(c, false),
{
    TokenTree::Punct(c, false)
}

/// The views of words.
pub open spec fn words_view(words: Seq<String>) -> Seq<Seq<char>> {
    words.map_values(|w: String| w@)
}

/// The tokens of a path of the given words.
fn path_of(leading_colon: bool, words: &Vec<String>) -> (r: Vec<TokenTree>)
    ensures
        path_tokens(leading_colon, words_view(words@), r@),
{
    let mut r: Vec<TokenTree> = Vec::new();
    if leading_colon {
        r.push(TokenTree::Punct(':', true));
        r.push(punct(':'));
    }
    let ghost lead = lead_len(leading_colon);
    let mut i: usize = 0;
    while i < words.len()
        invariant
            i <= words@.len(),
            lead == lead_len(leading_colon),
            r@.len() == path_tokens_len(leading_colon, i as int),
            leading_colon ==> starts_with_colons(r@),
            forall|j: int| 0 <= j < i ==> #[trigger] word_at(r@, leading_colon, j, words_view(words@)[j]),
            forall|j: int| 0 < j < i ==> #[trigger] colons_before(r@, leading_colon, j),
        decreases words@.len() - i,
    {
        let ghost before = r@;
        if i > 0 {
            r.push(TokenTree::Punct(':', true));
            r.push(punct(':'));
        }
        r.push(TokenTree::Ident(words[i].clone(), None));
        proof {
            assert forall|j: int| 0 <= j < i + 1 implies #[trigger] word_at(r@, leading_colon, j, words_view(words@)[j]) by {
                if j < i {
                    assert(word_at(before, leading_colon, j, words_view(words@)[j]));
                    assert(r@[lead + 3 * j] == before[lead + 3 * j]);
                }
            }
            assert forall|j: int| 0 < j < i + 1 implies #[trigger] colons_before(r@, leading_colon, j) by {
                let k = lead + 3 * j - 2;
                if j < i {
                    assert(colons_before(before, leading_colon, j));
                    assert(r@.skip(k)[0] == before.skip(k)[0] && r@.skip(k)[1] == before.skip(k)[1]);
                } else {
                    assert(r@.skip(k)[0] == r@[k] && r@.skip(k)[1] == r@[k + 1]);
                }
            }
            if leading_colon {
                assert(r@[0] == before[0] && r@[1] == before[1]);
            }
        }
        i = i + 1;
    }
    r
}

proof fn lemma_words_view_push(s: Seq<String>, w: String)
    ensures
        words_view(s.push(w)) == words_view(s).push(w@),
{
    assert(words_view(s.push(w)) =~= words_view(s).push(w@)) by {
        assert forall|k: int| 0 <= k < s.len() + 1 implies #[trigger] words_view(s.push(w))[k] == words_view(s).push(w@)[k] by {
            if k < s.len() {
                assert(s.push(w)[k] == s[k]);
            }
        }
    }
}

/// The words `CRATE::prelude::rest...`.
fn prelude_words(crate_words: &Vec<String>, rest: Vec<&'static str>) -> (r: Vec<String>)
    ensures
        words_view(r@) == prelude_path(words_view(crate_words@), rest@.map_values(|t: &str| t@)),
{
    let mut r: Vec<String> = Vec::new();
    let mut i: usize = 0;
    while i < crate_words.len()
        invariant
            i <= crate_words@.len(),
            words_view(r@) == words_view(crate_words@).take(i as int),
        decreases crate_words@.len() - i,
    {
        let ghost before = r@;
        let w = crate_words[i].clone();
        proof {
            lemma_words_view_push(before, w);
        }
        r.push(w);
        proof {
            assert(words_view(crate_words@).take(i + 1) =~= words_view(crate_words@).take(i as int).push(
                crate_words@[i as int]@,
            ));
        }
        i = i + 1;
    }
    let ghost before = r@;
    let w = String::from_str("prelude");
    proof {
        lemma_words_view_push(before, w);
    }
    r.push(w);
    let ghost base = words_view(r@);
    proof {
        assert(rest@.map_values(|t: &str| t@).take(0) =~= Seq::<Seq<char>>::empty());
        assert(base + Seq::<Seq<char>>::empty() =~= base);
    }
    let mut j: usize = 0;
    while j < rest.len()
        invariant
            j <= rest@.len(),
            words_view(r@) == base + rest@.map_values(|t: &str| t@).take(j as int),
        decreases rest@.len() - j,
    {
        let ghost before = r@;
        let w = rest[j].to_owned();
        proof {
            lemma_words_view_push(before, w);
        }
        r.push(w);
        proof {
            let mv = rest@.map_values(|t: &str| t@);
            assert(mv.take(j + 1) =~= mv.take(j as int).push(mv[j as int]));
            assert(base + mv.take(j + 1) =~= (base + mv.take(j as int)).push(mv[j as int]));
        }
        j = j + 1;
    }
    proof {
        assert(words_view(crate_words@).take(crate_words@.len() as int) =~= words_view(crate_words@));
        assert(rest@.map_values(|t: &str| t@).take(rest@.len() as int) =~= rest@.map_values(|t: &str| t@));
        assert(words_view(r@) =~= prelude_path(words_view(crate_words@), rest@.map_values(|t: &str| t@)));
    }
    r
}

/// The tokens of `CRATE::prelude::rest...`.
fn prelude_path_tokens(leading_colon: bool, crate_words: &Vec<String>, rest: Vec<&'static str>) -> (r: Vec<
    TokenTree,
>)
    ensures
        path_tokens(leading_colon, prelude_path(words_view(crate_words@), rest@.map_values(|t: &str| t@)), r@),
        r@.len() == prelude_len(leading_colon, words_view(crate_words@), rest@.len() as int),
{
    let words = prelude_words(crate_words, rest);
    path_of(leading_colon, &words)
}

/// The tokens of a plugin id's expression.
fn id_tokens_of(id: PluginId, leading_colon: bool, crate_words: &Vec<String>) -> (r: Vec<TokenTree>)
    ensures
        id_tokens(id@, leading_colon, words_view(crate_words@), r@),
{
    let ghost cw = words_view(crate_words@);
    match id {
        PluginId::Literal(text) => {
            let ghost text_view = text@;
            let rest = vec!["PluginId", "from"];
            proof {
                assert(rest@.map_values(|t: &str| t@) =~= seq!["PluginId"@, "from"@]);
            }
            let mut r = prelude_path_tokens(leading_colon, crate_words, rest);
            let ghost p = r@;
            let mut inner: Vec<TokenTree> = Vec::new();
            inner.push(TokenTree::Literal(text, true));
            r.push(TokenTree::Group(Delimiter::Parenthesis, inner));
            proof {
                assert(r@.subrange(0, p.len() as int) =~= p);
            }
            r
        },
        PluginId::Path(path) => {
            let rest = vec!["PluginId", "of"];
            proof {
                assert(rest@.map_values(|t: &str| t@) =~= seq!["PluginId"@, "of"@]);
            }
            let mut r = prelude_path_tokens(leading_colon, crate_words, rest);
            let ghost p = r@;
            r.push(TokenTree::Punct(':', true));
            r.push(punct(':'));
            r.push(punct('<'));
            let mut q = path_of(path.leading_colon, &path.segments);
            let ghost qv = q@;
            r.append(&mut q);
            r.push(punct('>'));
            r.push(TokenTree::Group(Delimiter::Parenthesis, Vec::new()));
            proof {
                let n = p.len() as int;
                assert(r@.subrange(0, n) =~= p);
                assert(r@.skip(n)[0] == r@[n] && r@.skip(n)[1] == r@[n + 1]);
                assert(r@.subrange(n + 3, n + 3 + qv.len()) =~= qv);
                assert(words_view(path.segments@) == path@.1);
                assert(is_group(r@[n + 4 + qv.len()], Delimiter::Parenthesis, Seq::empty())) by {
                    if let TokenTree::Group(_, v) = r@[n + 4 + qv.len()] {
                        assert(v@ =~= Seq::<TokenTree>::empty());
                    }
                }
            }
            r
        },
    }
}

/// The tokens of an update's expression.
fn dep_tokens_of(d: PluginPatchDependencyOutput, leading_colon: bool, crate_words: &Vec<String>) -> (r: Vec<
    TokenTree,
>)
    ensures
        dep_tokens(d@, leading_colon, words_view(crate_words@), r@),
{
    let ghost dv = d@;
    let ghost cw = words_view(crate_words@);
    let ghost av = dv.attrs;
    let mut r: Vec<TokenTree> = Vec::new();
    let mut attrs = d.attrs;
    let ghost mut j: int = 0;
    proof {
        assert(av.skip(0) =~= av);
    }
    while attrs.len() > 0
        invariant
            0 <= j <= av.len(),
            attrs@.map_values(|a: Vec<TokenTree>| a@) == av.skip(j),
            r@.len() == 2 * j,
            forall|k: int| 0 <= k < j ==> #[trigger] attr_at(r@, k, av[k]),
        decreases attrs@.len(),
    {
        let ghost rest = attrs@;
        let a = take_first(&mut attrs);
        proof {
            lemma_skip_first(rest, |a: Vec<TokenTree>| a@, av, j);
        }
        let ghost before = r@;
        r.push(punct('#'));
        r.push(TokenTree::Group(Delimiter::Bracket, a));
        proof {
            assert forall|k: int| 0 <= k < j + 1 implies #[trigger] attr_at(r@, k, av[k]) by {
                if k < j {
                    assert(attr_at(before, k, av[k]));
                    assert(r@[2 * k] == before[2 * k] && r@[2 * k + 1] == before[2 * k + 1]);
                }
            }
            j = j + 1;
        }
    }
    let ghost ra = r@;
    let op_text: &'static str = match d.op_ident {
        DependencyOp::AddBefore => "AddBefore",
        DependencyOp::AddAfter => "AddAfter",
        DependencyOp::RemoveBefore => "RemoveBefore",
        DependencyOp::RemoveAfter => "RemoveAfter",
    };
    let rest = vec!["UpdatePluginDependency", op_text];
    proof {
        assert(rest@.map_values(|t: &str| t@) =~= seq!["UpdatePluginDependency"@, op_word(dv.op)]);
    }
    let mut path = prelude_path_tokens(leading_colon, crate_words, rest);
    let ghost pv = path@;
    r.append(&mut path);
    let kind_text: &'static str = match d.kind_ident {
        DependencyKind::Required => "Required",
        DependencyKind::Optional => "Optional",
    };
    let kind_rest = vec!["PluginDependency", kind_text];
    proof {
        assert(kind_rest@.map_values(|t: &str| t@) =~= seq!["PluginDependency"@, kind_word(dv.kind)]);
    }
    let mut inner = prelude_path_tokens(leading_colon, crate_words, kind_rest);
    let ghost kv = inner@;
    let id_part = id_tokens_of(d.id, leading_colon, crate_words);
    inner.push(TokenTree::Group(Delimiter::Parenthesis, id_part));
    proof {
        assert(inner@.subrange(0, kv.len() as int) =~= kv);
        assert(kind_tokens(dv.kind, dv.id, leading_colon, cw, inner@));
    }
    let ghost iv = inner@;
    r.push(TokenTree::Group(Delimiter::Parenthesis, inner));
    proof {
        let a = 2 * av.len() as int;
        assert(r@.subrange(a, a + pv.len() as int) =~= pv);
        assert forall|k: int| 0 <= k < av.len() implies #[trigger] attr_at(r@, k, av[k]) by {
            assert(attr_at(ra, k, av[k]));
            assert(r@[2 * k] == ra[2 * k] && r@[2 * k + 1] == ra[2 * k + 1]);
        }
    }
    r
}

/// The tokens of updates separated by commas.
fn deps_list_tokens(deps: Vec<PluginPatchDependencyOutput>, leading_colon: bool, crate_words: &Vec<String>) -> (r: Vec<
    TokenTree,
>)
    ensures
        list_matches(
            deps@.map_values(|d: PluginPatchDependencyOutput| d@),
            false,
            r@,
            dep_tokens_len_fn(leading_colon, words_view(crate_words@)),
            dep_tokens_fn(leading_colon, words_view(crate_words@)),
        ),
{
    let ghost all = deps@.map_values(|d: PluginPatchDependencyOutput| d@);
    let ghost len = dep_tokens_len_fn(leading_colon, words_view(crate_words@));
    let ghost m = dep_tokens_fn(leading_colon, words_view(crate_words@));
    let mut rest = deps;
    let mut r: Vec<TokenTree> = Vec::new();
    let mut first = true;
    let ghost mut i: int = 0;
    proof {
        assert(all.skip(0) =~= all);
        assert(all.take(0) =~= Seq::<DependencyOutView>::empty());
    }
    while rest.len() > 0
        invariant
            0 <= i <= all.len(),
            first == (i == 0),
            len == dep_tokens_len_fn(leading_colon, words_view(crate_words@)),
            m == dep_tokens_fn(leading_colon, words_view(crate_words@)),
            rest@.map_values(|d: PluginPatchDependencyOutput| d@) == all.skip(i),
            list_matches(all.take(i), false, r@, len, m),
        decreases rest@.len(),
    {
        let ghost items = rest@;
        let d = take_first(&mut rest);
        proof {
            lemma_skip_first(items, |d: PluginPatchDependencyOutput| d@, all, i);
        }
        let ghost acc = r@;
        if !first {
            r.push(punct(','));
        }
        let ghost with_comma = r@;
        let mut t = dep_tokens_of(d, leading_colon, crate_words);
        let ghost tv = t@;
        r.append(&mut t);
        proof {
            let x = all[i];
            assert(tv.take(tv.len() as int) =~= tv);
            assert(seq![x].skip(1) =~= Seq::<DependencyOutView>::empty());
            assert(list_rest(seq![x], false, tv, len, m));
            assert(all.take(i + 1) =~= all.take(i) + seq![x]);
            if i == 0 {
                assert(acc.len() == 0) by {
                    assert(all.take(0).len() == 0);
                }
                assert(r@ =~= tv);
                assert(all.take(1) =~= seq![x]);
            } else {
                lemma_list_comma(all.take(i), acc, punct_spec(','), len, m);
                assert(with_comma == acc.push(punct_spec(',')));
                lemma_list_append(all.take(i), with_comma, seq![x], false, tv, len, m);
                assert(with_comma + tv =~= r@);
            }
            i = i + 1;
        }
        first = false;
    }
    proof {
        assert(all.take(i) =~= all);
    }
    r
}

/// A punctuation token not joined to the next one, as a value.
pub open spec fn punct_spec(c: char) -> TokenTree {
    TokenTree::Punct(c, false)
}

/// The parenthesised expression of an entry: `(ID, CRATE::...::vec![...].into_iter().collect())`.
fn entry_tokens_of(e: PluginPatchEntryOutput, leading_colon: bool, crate_words: &Vec<String>) -> (r: TokenTree)
    ensures
        (entry_tokens_fn(leading_colon, words_view(crate_words@)))(e@, seq![r]),
{
    let ghost ev = e@;
    let ghost cw = words_view(crate_words@);
    let mut s = id_tokens_of(e.id, leading_colon, crate_words);
    let ghost iv = s@;
    s.push(punct(','));
    let vec_rest = vec!["bevy_platform", "prelude", "vec"];
    proof {
        assert(vec_rest@.map_values(|t: &str| t@) =~= seq!["bevy_platform"@, "prelude"@, "vec"@]);
    }
    let mut vec_part = prelude_path_tokens(leading_colon, crate_words, vec_rest);
    let ghost pv = vec_part@;
    vec_part.push(punct('!'));
    let deps = deps_list_tokens(e.dependencies, leading_colon, crate_words);
    vec_part.push(TokenTree::Group(Delimiter::Bracket, deps));
    let ghost vv = vec_part@;
    proof {
        assert(vv.subrange(0, pv.len() as int) =~= pv);
        assert(vec_tokens(
            leading_colon,
            cw,
            vv,
            |w: Seq<TokenTree>|
                list_matches(ev.dependencies, false, w, dep_tokens_len_fn(leading_colon, cw), dep_tokens_fn(leading_colon, cw)),
        ));
    }
    s.append(&mut vec_part);
    s.push(punct('.'));
    s.push(ident("into_iter"));
    s.push(TokenTree::Group(Delimiter::Parenthesis, Vec::new()));
    s.push(punct('.'));
    s.push(ident("collect"));
    s.push(TokenTree::Group(Delimiter::Parenthesis, Vec::new()));
    proof {
        let i = iv.len() as int;
        let v = pv.len() as int;
        assert(s@.take(i) =~= iv);
        assert(s@.subrange(i + 1, i + v + 3) =~= vv);
        if let TokenTree::Group(_, g) = s@[i + v + 5] {
            assert(g@ =~= Seq::<TokenTree>::empty());
        }
        if let TokenTree::Group(_, g) = s@[i + v + 8] {
            assert(g@ =~= Seq::<TokenTree>::empty());
        }
        assert(entry_tokens(ev, leading_colon, cw, s@));
    }
    TokenTree::Group(Delimiter::Parenthesis, s)
}

/// The tokens of entries separated by commas.
fn entries_list_tokens(entries: Vec<PluginPatchEntryOutput>, leading_colon: bool, crate_words: &Vec<String>) -> (r: Vec<
    TokenTree,
>)
    ensures
        list_matches(
            entries@.map_values(|e: PluginPatchEntryOutput| e@),
            false,
            r@,
            entry_tokens_len_fn(),
            entry_tokens_fn(leading_colon, words_view(crate_words@)),
        ),
{
    let ghost all = entries@.map_values(|e: PluginPatchEntryOutput| e@);
    let ghost len = entry_tokens_len_fn();
    let ghost m = entry_tokens_fn(leading_colon, words_view(crate_words@));
    let mut rest = entries;
    let mut r: Vec<TokenTree> = Vec::new();
    let mut first = true;
    let ghost mut i: int = 0;
    proof {
        assert(all.skip(0) =~= all);
        assert(all.take(0) =~= Seq::<EntryOutView>::empty());
    }
    while rest.len() > 0
        invariant
            0 <= i <= all.len(),
            first == (i == 0),
            len == entry_tokens_len_fn(),
            m == entry_tokens_fn(leading_colon, words_view(crate_words@)),
            rest@.map_values(|e: PluginPatchEntryOutput| e@) == all.skip(i),
            list_matches(all.take(i), false, r@, len, m),
        decreases rest@.len(),
    {
        let ghost items = rest@;
        let e = take_first(&mut rest);
        proof {
            lemma_skip_first(items, |e: PluginPatchEntryOutput| e@, all, i);
        }
        let ghost acc = r@;
        if !first {
            r.push(punct(','));
        }
        let ghost with_comma = r@;
        let t = entry_tokens_of(e, leading_colon, crate_words);
        let ghost tv = seq![t];
        r.push(t);
        proof {
            let x = all[i];
            assert(tv.take(1) =~= tv);
            assert(seq![x].skip(1) =~= Seq::<EntryOutView>::empty());
            assert(list_rest(seq![x], false, tv, len, m));
            assert(all.take(i + 1) =~= all.take(i) + seq![x]);
            if i == 0 {
                assert(acc.len() == 0) by {
                    assert(all.take(0).len() == 0);
                }
                assert(r@ =~= tv);
                assert(all.take(1) =~= seq![x]);
            } else {
                lemma_list_comma(all.take(i), acc, punct_spec(','), len, m);
                assert(with_comma == acc.push(punct_spec(',')));
                lemma_list_append(all.take(i), with_comma, seq![x], false, tv, len, m);
                assert(with_comma + tv =~= r@);
            }
            i = i + 1;
        }
        first = false;
    }
    proof {
        assert(all.take(i) =~= all);
    }
    r
}

impl PluginPatchOutput {
    /// The tokens of the expression that builds the `PluginDependencyPatch` of these
    /// updates, with `bevy_app` as the path of the crate.
    pub fn to_tokens(self, bevy_app: &TypePath) -> (r: Vec<TokenTree>)
        ensures
            patch_tokens(self@, bevy_app@.0, bevy_app@.1, r@),
    {
        let ghost cw = words_view(bevy_app.segments@);
        let leading_colon = bevy_app.leading_colon;
        let rest = vec!["PluginDependencyPatch", "new"];
        proof {
            assert(rest@.map_values(|t: &str| t@) =~= seq!["PluginDependencyPatch"@, "new"@]);
        }
        let mut r = prelude_path_tokens(leading_colon, &bevy_app.segments, rest);
        let ghost rv = r@;
        let vec_rest = vec!["bevy_platform", "prelude", "vec"];
        proof {
            assert(vec_rest@.map_values(|t: &str| t@) =~= seq!["bevy_platform"@, "prelude"@, "vec"@]);
        }
        let mut v = prelude_path_tokens(leading_colon, &bevy_app.segments, vec_rest);
        let ghost pv = v@;
        v.push(punct('!'));
        let entries = entries_list_tokens(self.entries, leading_colon, &bevy_app.segments);
        v.push(TokenTree::Group(Delimiter::Bracket, entries));
        proof {
            assert(v@.subrange(0, pv.len() as int) =~= pv);
        }
        r.push(TokenTree::Group(Delimiter::Parenthesis, v));
        proof {
            assert(cw =~= bevy_app@.1);
            assert(r@.subrange(0, rv.len() as int) =~= rv);
        }
        r
    }
}

/// The word written for an update names its operation: `Add` or `Remove`, then `Before`
/// or `After` for the list it changes; so different updates are written as different
/// words.
pub proof fn lemma_op_word(a: DependencyOp, b: DependencyOp)
    ensures
        op_word(a) == (if a == DependencyOp::AddBefore || a == DependencyOp::AddAfter {
            "Add"@
        } else {
            "Remove"@
        }) + (if a == DependencyOp::AddBefore || a == DependencyOp::RemoveBefore {
            "Before"@
        } else {
            "After"@
        }),
        op_word(a) == op_word(b) ==> a == b,
{
    reveal_strlit("Add");
    reveal_strlit("Remove");
    reveal_strlit("Before");
    reveal_strlit("After");
    reveal_strlit("AddBefore");
    reveal_strlit("AddAfter");
    reveal_strlit("RemoveBefore");
    reveal_strlit("RemoveAfter");
    assert("Add"@ + "Before"@ =~= "AddBefore"@);
    assert("Add"@ + "After"@ =~= "AddAfter"@);
    assert("Remove"@ + "Before"@ =~= "RemoveBefore"@);
    assert("Remove"@ + "After"@ =~= "RemoveAfter"@);
    assert("AddBefore"@.len() == 9 && "AddAfter"@.len() == 8 && "RemoveBefore"@.len() == 12 && "RemoveAfter"@.len() == 11);
}

/// The word written for a dependency's kind names it: different kinds are written as
/// different words, `Optional` for an optional dependency.
pub proof fn lemma_kind_word(a: DependencyKind, b: DependencyKind)
    ensures
        (kind_word(a) == "Optional"@) == (a == DependencyKind::Optional),
        kind_word(a) == kind_word(b) ==> a == b,
{
    reveal_strlit("Optional");
    reveal_strlit("Required");
    assert("Optional"@[0] != "Required"@[0]);
}

} // verus!
