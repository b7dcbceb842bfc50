//! The tokens that a plugin dependency patch is written in: identifiers, punctuation,
//! literals, and groups delimited by brackets.

use vstd::prelude::*;

verus! {

/// The delimiter of a group of tokens.
#[derive(Clone, Copy, Debug, PartialEq, Eq, Structural)]
pub enum Delimiter {
    /// `( ... )`
    Parenthesis,
    /// `{ ... }`
    Brace,
    /// `[ ... ]`
    Bracket,
}

/// A token tree.
#[derive(Debug)]
pub enum TokenTree {
    /// A delimited group and the tokens inside it.
    Group(Delimiter, Vec<TokenTree>),
    /// An identifier or a keyword, as written (a raw identifier keeps its `r#`), and
    /// where it stands in the source: the number that the caller gave it when reading
    /// it, or `None` for one that was not read from the source.
    Ident(String, Option<usize>),
    /// A punctuation character; the flag tells whether it is joined to a punctuation
    /// character that follows it (as the first `:` of `::` is).
    Punct(char, bool),
    /// A literal, as written; the flag tells whether it is a string literal.
    Literal(String, bool),
}

/// `t` is the punctuation character `c`, joined or not.
pub open spec fn is_punct(t: TokenTree, c: char) -> bool {
    t matches TokenTree::Punct(d, _) && d == c
}

/// `s` starts with `::`: a `:` joined to a following `:`.
pub open spec fn starts_with_colons(s: Seq<TokenTree>) -> bool {
    &&& s.len() >= 2
    &&& s[0] matches TokenTree::Punct(c, joint) && c == ':' && joint
    &&& is_punct(s[1], ':')
}

/// `t` is the identifier `name`.
pub open spec fn is_ident(t: TokenTree, name: Seq<char>) -> bool {
    t matches TokenTree::Ident(s, _) && s@ == name
}

/// `t` is a string literal written `text`.
pub open spec fn is_str_literal(t: TokenTree, text: Seq<char>) -> bool {
    t matches TokenTree::Literal(s, is_str) && is_str && s@ == text
}

/// `t` is a group with delimiter `d` around the tokens `inner`.
pub open spec fn is_group(t: TokenTree, d: Delimiter, inner: Seq<TokenTree>) -> bool {
    t matches TokenTree::Group(e, v) && e == d && v@ == inner
}

/// The words that are not identifiers: the keywords of Rust, and `_`.
pub open spec fn keywords() -> Seq<Seq<char>> {
    seq![
        "_"@, "abstract"@, "as"@, "async"@, "await"@, "become"@, "box"@, "break"@, "const"@,
        "continue"@, "crate"@, "do"@, "dyn"@, "else"@, "enum"@, "extern"@, "false"@, "final"@,
        "fn"@, "for"@, "if"@, "impl"@, "in"@, "let"@, "loop"@, "macro"@, "match"@, "mod"@,
        "move"@, "mut"@, "override"@, "priv"@, "pub"@, "ref"@, "return"@, "Self"@, "self"@,
        "static"@, "struct"@, "super"@, "trait"@, "true"@, "try"@, "type"@, "typeof"@,
        "unsafe"@, "unsized"@, "use"@, "virtual"@, "where"@, "while"@, "yield"@,
    ]
}

/// `word` is a keyword (or `_`), not an identifier.
pub open spec fn is_keyword(word: Seq<char>) -> bool {
    keywords().contains(word)
}

fn keyword_texts() -> (r: Vec<&'static str>)
    ensures
        r@.len() == keywords().len(),
        forall|i: int| 0 <= i < r@.len() ==> #[trigger] r@[i]@ == keywords()[i],
{
    let r = vec![
        "_", "abstract", "as", "async", "await", "become", "box", "break", "const",
        "continue", "crate", "do", "dyn", "else", "enum", "extern", "false", "final",
        "fn", "for", "if", "impl", "in", "let", "loop", "macro", "match", "mod",
        "move", "mut", "override", "priv", "pub", "ref", "return", "Self", "self",
        "static", "struct", "super", "trait", "true", "try", "type", "typeof",
        "unsafe", "unsized", "use", "virtual", "where", "while", "yield",
    ];
    assert(r@.map_values(|t: &str| t@) =~= keywords());
    assert forall|i: int| 0 <= i < r@.len() implies #[trigger] r@[i]@ == keywords()[i] by {
        assert(r@.map_values(|t: &str| t@)[i] == r@[i]@);
    }
    r
}

/// Whether `text` is the word `word`.
pub fn text_is(text: &String, word: &str) -> (r: bool)
    ensures
        r == (text@ == word@),
{
    *text == word.to_owned()
}

/// Whether `word` is a keyword (or `_`).
pub fn is_keyword_text(word: &String) -> (r: bool)
    ensures
        r == is_keyword(word@),
{
    let texts = keyword_texts();
    let mut i: usize = 0;
    while i < texts.len()
        invariant
            i <= texts@.len(),
            texts@.len() == keywords().len(),
            forall|j: int| 0 <= j < texts@.len() ==> #[trigger] texts@[j]@ == keywords()[j],
            forall|j: int| 0 <= j < i ==> keywords()[j] != word@,
        decreases texts@.len() - i,
    {
        if text_is(word, texts[i]) {
            assert(keywords()[i as int] == word@);
            return true;
        }
        i = i + 1;
    }
    proof {
        if keywords().contains(word@) {
            let j = choose|j: int| 0 <= j < keywords().len() && keywords()[j] == word@;
            assert(keywords()[j] != word@);
        }
    }
    false
}

} // verus!
