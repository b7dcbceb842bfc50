use bevy_app::plugin_deps_patch::execute;
use bevy_app::plugin_deps_patch::input::{parse_patch, PluginDependencyOperation, PluginId, TypePath};
use bevy_app::plugin_deps_patch::out::{DependencyKind, DependencyOp, PatchError, PluginPatchOutput};
use bevy_app::plugin_deps_patch::token::{Delimiter, TokenTree};

fn ident(s: &str) -> TokenTree {
    TokenTree::Ident(s.to_string(), None)
}

fn punct(c: char) -> TokenTree {
    TokenTree::Punct(c, false)
}

fn joint(c: char) -> TokenTree {
    TokenTree::Punct(c, true)
}

fn lit(s: &str) -> TokenTree {
    TokenTree::Literal(format!("\"{}\"", s), true)
}

fn group(d: Delimiter, v: Vec<TokenTree>) -> TokenTree {
    TokenTree::Group(d, v)
}

/// The tokens of a path such as `a::b::C`.
fn path(p: &str) -> Vec<TokenTree> {
    let mut v = Vec::new();
    for (i, seg) in p.split("::").enumerate() {
        if i > 0 {
            v.push(joint(':'));
            v.push(punct(':'));
        }
        v.push(ident(seg));
    }
    v
}

/// `name: [ deps ]`
fn property(name: &str, deps: Vec<TokenTree>) -> Vec<TokenTree> {
    vec![ident(name), punct(':'), group(Delimiter::Bracket, deps)]
}

fn cat(parts: Vec<Vec<TokenTree>>) -> Vec<TokenTree> {
    parts.into_iter().flatten().collect()
}

fn path_text(id: &PluginId) -> String {
    match id {
        PluginId::Literal(s) => s.clone(),
        PluginId::Path(p) => {
            let mut t = if p.leading_colon { "::".to_string() } else { String::new() };
            t.push_str(&p.segments.join("::"));
            t
        }
    }
}

fn summary(out: &PluginPatchOutput) -> Vec<(String, Vec<(DependencyOp, DependencyKind, String, usize)>)> {
    out.entries
        .iter()
        .map(|e| {
            (
                path_text(&e.id),
                e.dependencies
                    .iter()
                    .map(|d| (d.op_ident, d.kind_ident, path_text(&d.id), d.attrs.len()))
                    .collect(),
            )
        })
        .collect()
}

/// A patch of two entries, the first written without `:` after its id:
/// ```text
/// thirdparty::plugin::PluginA {
///     build_before: [+my::PluginB, -?AssetPlugin],
///     build_after: [+"unimported::other::Plugin"]
/// },
/// "another::unimported::Plugin": { build_before: [+my::custom::Plugin]}
/// ```
fn two_entry_patch() -> Vec<TokenTree> {
    let first_body = cat(vec![
        property(
            "build_before",
            cat(vec![
                vec![joint('+')],
                path("my::PluginB"),
                vec![punct(','), joint('-'), punct('?')],
                path("AssetPlugin"),
                vec![punct(',')],
            ]),
        ),
        vec![punct(',')],
        property("build_after", vec![punct('+'), lit("unimported::other::Plugin")]),
    ]);
    let second_body = property("build_before", cat(vec![vec![punct('+')], path("my::custom::Plugin")]));
    cat(vec![
        path("thirdparty::plugin::PluginA"),
        vec![group(Delimiter::Brace, first_body), punct(',')],
        vec![lit("another::unimported::Plugin"), punct(':'), group(Delimiter::Brace, second_body)],
    ])
}

#[test]
fn two_entries_are_read() {
    let out = execute(two_entry_patch()).unwrap();
    assert_eq!(
        summary(&out),
        vec![
            (
                "thirdparty::plugin::PluginA".to_string(),
                vec![
                    (DependencyOp::AddBefore, DependencyKind::Required, "my::PluginB".to_string(), 0),
                    (DependencyOp::RemoveBefore, DependencyKind::Optional, "AssetPlugin".to_string(), 0),
                    (
                        DependencyOp::AddAfter,
                        DependencyKind::Required,
                        "\"unimported::other::Plugin\"".to_string(),
                        0
                    ),
                ]
            ),
            (
                "\"another::unimported::Plugin\"".to_string(),
                vec![(DependencyOp::AddBefore, DependencyKind::Required, "my::custom::Plugin".to_string(), 0)]
            ),
        ]
    );
}

#[test]
fn two_entries_syntax() {
    let p = parse_patch(two_entry_patch()).unwrap();
    assert_eq!(p.entries.len(), 2);
    assert!(!p.trailing_comma);
    assert!(!p.entries[0].semi);
    assert!(p.entries[1].semi);
    let deps = &p.entries[0].deps[0].deps;
    assert!(deps.trailing_comma);
    assert_eq!(deps.deps[1].ty.op, PluginDependencyOperation::Remove);
    assert!(deps.deps[1].ty.maybe_opt);
}

#[test]
fn empty_patch() {
    let out = execute(vec![]).unwrap();
    assert!(out.entries.is_empty());
}

#[test]
fn attributes_are_kept() {
    let attr = vec![ident("cfg"), group(Delimiter::Parenthesis, vec![ident("test")])];
    let tokens = cat(vec![
        vec![lit("a"), punct(':')],
        vec![group(
            Delimiter::Brace,
            property(
                "build_after",
                cat(vec![
                    vec![punct('#'), group(Delimiter::Bracket, attr), punct('#'), group(Delimiter::Bracket, vec![ident("doc")])],
                    vec![punct('-')],
                    path("b::C"),
                ]),
            ),
        )],
        vec![punct(',')],
    ]);
    let out = execute(tokens).unwrap();
    assert_eq!(
        summary(&out),
        vec![("\"a\"".to_string(), vec![(DependencyOp::RemoveAfter, DependencyKind::Required, "b::C".to_string(), 2)])]
    );
    match &out.entries[0].dependencies[0].attrs[0][0] {
        TokenTree::Ident(s, _) => assert_eq!(s, "cfg"),
        _ => panic!("attribute tokens changed"),
    }
}

#[test]
fn leading_colons() {
    let tokens = cat(vec![
        vec![joint(':'), punct(':')],
        path("a::B"),
        vec![punct(':'), group(Delimiter::Brace, vec![])],
    ]);
    let p = parse_patch(tokens).unwrap();
    assert_eq!(path_text(&p.entries[0].id), "::a::B");
}

#[test]
fn keyword_segments() {
    let tokens = cat(vec![path("crate::super::Self"), vec![group(Delimiter::Brace, vec![])]]);
    assert!(parse_patch(tokens).is_ok());
    let tokens = cat(vec![path("a::fn"), vec![group(Delimiter::Brace, vec![])]]);
    assert!(matches!(parse_patch(tokens), Err(_)));
}

#[test]
fn invalid_property() {
    let tokens = cat(vec![
        path("a::A"),
        vec![punct(':')],
        vec![group(
            Delimiter::Brace,
            cat(vec![
                property("build_before", vec![punct('+'), ident("B")]),
                vec![punct(',')],
                property("build_later", vec![punct('+'), ident("C")]),
                vec![punct(',')],
                property("other", vec![]),
            ]),
        )],
    ]);
    match execute(tokens) {
        Err(e @ PatchError::InvalidProperty(..)) => assert_eq!(
            e.to_string(),
            "Invalid property: build_later, expected either `build_before` or `build_after`"
        ),
        other => panic!("unexpected {:?}", other),
    }
}

#[test]
fn property_must_not_be_a_keyword() {
    let tokens = cat(vec![path("A"), vec![group(Delimiter::Brace, property("fn", vec![]))]]);
    assert!(matches!(execute(tokens), Err(PatchError::Syntax(_))));
}

#[test]
fn syntax_errors() {
    // A lone comma.
    assert!(matches!(execute(vec![punct(',')]), Err(PatchError::Syntax(_))));
    // Two commas between entries.
    let e = || cat(vec![path("A"), vec![group(Delimiter::Brace, vec![])]]);
    assert!(matches!(execute(cat(vec![e(), vec![punct(','), punct(',')], e()])), Err(PatchError::Syntax(_))));
    // Entries without a comma between them.
    assert!(matches!(execute(cat(vec![e(), e()])), Err(PatchError::Syntax(_))));
    // Square brackets in place of braces.
    assert!(matches!(
        execute(cat(vec![path("A"), vec![group(Delimiter::Bracket, vec![])]])),
        Err(PatchError::Syntax(_))
    ));
    // A dependency without `+` or `-`.
    let body = property("build_before", vec![ident("B")]);
    assert!(matches!(
        execute(cat(vec![path("A"), vec![group(Delimiter::Brace, body)]])),
        Err(PatchError::Syntax(_))
    ));
    // A path ending in `::`.
    let body = property("build_before", cat(vec![vec![punct('+'), ident("B"), joint(':'), punct(':')]]));
    assert!(matches!(
        execute(cat(vec![path("A"), vec![group(Delimiter::Brace, body)]])),
        Err(PatchError::Syntax(_))
    ));
    // A non-string literal as an id.
    let tokens = vec![TokenTree::Literal("1".to_string(), false), group(Delimiter::Brace, vec![])];
    assert!(matches!(execute(tokens), Err(PatchError::Syntax(_))));
}

#[test]
fn syntax_error_message() {
    match execute(vec![punct(',')]) {
        Err(e @ PatchError::Syntax(_)) => assert!(e.to_string().starts_with("expected ")),
        other => panic!("unexpected {:?}", other),
    }
}

#[test]
fn trailing_commas_everywhere() {
    let body = cat(vec![property("build_after", vec![punct('+'), ident("B"), punct(',')]), vec![punct(',')]]);
    let tokens = cat(vec![path("A"), vec![punct(':'), group(Delimiter::Brace, body), punct(',')]]);
    let p = parse_patch(tokens).unwrap();
    assert!(p.trailing_comma);
    assert!(p.entries[0].trailing_comma);
    assert!(p.entries[0].deps[0].deps.trailing_comma);
}

/// The tokens as text: punctuation and groups as written, words separated by a space.
fn text(tokens: &[TokenTree]) -> String {
    let mut out = String::new();
    let mut last_word = false;
    for t in tokens {
        match t {
            TokenTree::Ident(s, _) | TokenTree::Literal(s, _) => {
                if last_word {
                    out.push(' ');
                }
                out.push_str(s);
                last_word = true;
            }
            TokenTree::Punct(c, _) => {
                out.push(*c);
                last_word = false;
            }
            TokenTree::Group(d, inner) => {
                let (open, close) = match d {
                    Delimiter::Parenthesis => ('(', ')'),
                    Delimiter::Brace => ('{', '}'),
                    Delimiter::Bracket => ('[', ']'),
                };
                out.push(open);
                out.push_str(&text(inner));
                out.push(close);
                last_word = false;
            }
        }
    }
    out
}

fn crate_path() -> TypePath {
    TypePath { leading_colon: true, segments: vec!["bevy_app".to_string()] }
}

#[test]
fn expression_of_a_patch() {
    let tokens = cat(vec![
        vec![lit("a")],
        vec![punct(':'), group(
            Delimiter::Brace,
            property(
                "build_before",
                cat(vec![
                    vec![punct('#'), group(Delimiter::Bracket, vec![ident("cfg"), group(Delimiter::Parenthesis, vec![ident("test")])])],
                    vec![punct('+'), punct('?')],
                    path("my::B"),
                    vec![punct(','), punct('-'), lit("c")],
                ]),
            ),
        )],
    ]);
    let out = execute(tokens).unwrap();
    let expr = text(&out.to_tokens(&crate_path()));
    let p = "::bevy_app::prelude::";
    let vec = format!("{p}bevy_platform::prelude::vec!");
    assert_eq!(
        expr,
        format!(
            "{p}PluginDependencyPatch::new({vec}[({p}PluginId::from(\"a\"),{vec}[#[cfg(test)]{p}UpdatePluginDependency::AddBefore({p}PluginDependency::Optional({p}PluginId::of::<my::B>())),{p}UpdatePluginDependency::RemoveBefore({p}PluginDependency::Required({p}PluginId::from(\"c\")))].into_iter().collect())])"
        )
    );
}

#[test]
fn expression_of_an_empty_patch() {
    let out = execute(vec![]).unwrap();
    let expr = text(&out.to_tokens(&TypePath { leading_colon: false, segments: vec!["bevy".to_string(), "app".to_string()] }));
    assert_eq!(expr, "bevy::app::prelude::PluginDependencyPatch::new(bevy::app::prelude::bevy_platform::prelude::vec![])");
}

#[test]
fn invalid_property_is_reported_where_it_stands() {
    let at = |s: &str, k: usize| TokenTree::Ident(s.to_string(), Some(k));
    let tokens = vec![
        at("A", 0),
        group(
            Delimiter::Brace,
            vec![
                at("build_after", 1),
                punct(':'),
                group(Delimiter::Bracket, vec![]),
                punct(','),
                at("later", 2),
                punct(':'),
                group(Delimiter::Bracket, vec![punct('+'), at("B", 3)]),
                punct(','),
                at("other", 4),
                punct(':'),
                group(Delimiter::Bracket, vec![]),
            ],
        ),
    ];
    match execute(tokens) {
        Err(PatchError::InvalidProperty(name, span)) => {
            assert_eq!(name, "later");
            assert_eq!(span, Some(2));
        }
        other => panic!("unexpected {:?}", other),
    }
}
