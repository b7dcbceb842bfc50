//! The configuration that macros read from a project's `.config/bevy_manifest.toml`.

use std::path::PathBuf;
use std::time::SystemTime;
use crate::plugin_deps_patch::token::text_is;
use toml_edit::Document;
use vstd::prelude::*;
use vstd::slice::slice_to_vec;
use vstd::string::StringSliceAdditionalSpecFns;

verus! {

#[verifier::external_type_specification]
#[verifier::external_body]
pub struct ExPathBuf(PathBuf);

#[verifier::external_type_specification]
#[verifier::external_body]
pub struct ExSystemTime(SystemTime);

/// What a configuration document holds under `macros.<member>`, when it holds something:
/// either a value that is not an array, or an array whose elements are strings (`Some`) or
/// other values (`None`).
pub enum ConfigMember {
    NotArray,
    Array(Vec<Option<String>>),
}

/// A configuration member as a value.
pub enum ConfigMemberView {
    NotArray,
    Array(Seq<Option<Seq<char>>>),
}

impl View for ConfigMember {
    type V = ConfigMemberView;

    open spec fn view(&self) -> ConfigMemberView {
        match self {
            ConfigMember::NotArray => ConfigMemberView::NotArray,
            ConfigMember::Array(items) => ConfigMemberView::Array(
                items@.map_values(|i: Option<String>| match i {
                    Some(s) => Some(s@),
                    None => None,
                }),
            ),
        }
    }
}

/// A member that may be absent, as a value.
pub open spec fn member_view(m: Option<ConfigMember>) -> Option<ConfigMemberView> {
    match m {
        Some(v) => Some(v@),
        None => None,
    }
}

/// What a TOML document holds at a top-level key: the members of the table that the key
/// names (a table or an inline table), each with what it holds; or a value that is not a
/// table.
pub enum TomlEntry {
    NotTable,
    Table(Vec<(String, ConfigMember)>),
}

/// A top-level entry as a value.
pub enum TomlEntryView {
    NotTable,
    Table(Seq<(Seq<char>, ConfigMemberView)>),
}

/// The members of a table, as values.
pub open spec fn members_view(m: Seq<(String, ConfigMember)>) -> Seq<(Seq<char>, ConfigMemberView)> {
    m.map_values(|p: (String, ConfigMember)| (p.0@, p.1@))
}

impl View for TomlEntry {
    type V = TomlEntryView;

    open spec fn view(&self) -> TomlEntryView {
        match self {
            TomlEntry::NotTable => TomlEntryView::NotTable,
            TomlEntry::Table(m) => TomlEntryView::Table(members_view(m@)),
        }
    }
}

/// The top-level entries of a document, as values.
pub open spec fn entries_view(d: Seq<(String, TomlEntry)>) -> Seq<(Seq<char>, TomlEntryView)> {
    d.map_values(|p: (String, TomlEntry)| (p.0@, p.1@))
}

/// The top-level entries of a TOML document, in the order written, or the parser's error
/// message: a function of the text alone.
pub uninterp spec fn toml_top_level(text: Seq<char>) -> Result<Seq<(Seq<char>, TomlEntryView)>, Seq<char>>;

/// Parses a TOML document.
///
/// Calls `toml_edit::Document::parse` and hands back its top-level entries as plain
/// values: each key, and for a table or inline table its members with what each holds
/// (a value that is not an array, or an array whose elements are strings or not); or the
/// text of the `TomlError`. Claimed: the result is the named function of the text;
/// nothing is stated of what that function is.
#[verifier::external_body]
fn parse_toml_top_level(text: &str) -> (r: Result<Vec<(String, TomlEntry)>, String>)
    ensures
        match (r, toml_top_level(text@)) {
            (Ok(d), Ok(w)) => entries_view(d@) == w,
            (Err(e), Err(f)) => e@ == f,
            _ => false,
        },
{
    match Document::parse(text) {
        Ok(doc) => Ok(doc.iter().map(|(key, item)| (key.to_string(), match item.as_table_like() {
            None => TomlEntry::NotTable,
            Some(table) => TomlEntry::Table(table.iter().map(|(k, v)| (k.to_string(), match v.as_array() {
                None => ConfigMember::NotArray,
                Some(a) => ConfigMember::Array(a.iter().map(|x| x.as_str().map(|t| t.to_string())).collect()),
            })).collect()),
        })).collect()),
        Err(err) => Err(err.to_string()),
    }
}

/// Entry `i` is the first with key `key`.
pub open spec fn first_with_key<V>(entries: Seq<(Seq<char>, V)>, key: Seq<char>, i: int) -> bool {
    &&& 0 <= i < entries.len()
    &&& entries[i].0 == key
    &&& forall|j: int| 0 <= j < i ==> entries[j].0 != key
}

/// What the first entry with key `key` holds, if there is one.
pub open spec fn find_key<V>(entries: Seq<(Seq<char>, V)>, key: Seq<char>) -> Option<V> {
    if exists|i: int| first_with_key(entries, key, i) {
        Some(entries[choose|i: int| first_with_key(entries, key, i)].1)
    } else {
        None
    }
}

/// What a document holds under `macros.<member>`.
pub open spec fn macros_member(doc: Seq<(Seq<char>, TomlEntryView)>, member: Seq<char>) -> Option<ConfigMemberView> {
    match find_key(doc, "macros"@) {
        Some(TomlEntryView::Table(members)) => find_key(members, member),
        _ => None,
    }
}

/// The position of the first entry with key `key`.
fn key_index<V>(entries: &Vec<(String, V)>, key: &str) -> (r: Option<usize>)
    ensures
        match r {
            Some(i) => i < entries@.len() && entries@[i as int].0@ == key@ && forall|j: int|
                0 <= j < i ==> entries@[j].0@ != key@,
            None => forall|j: int| 0 <= j < entries@.len() ==> entries@[j].0@ != key@,
        },
{
    let mut i: usize = 0;
    while i < entries.len()
        invariant
            i <= entries@.len(),
            forall|j: int| 0 <= j < i ==> entries@[j].0@ != key@,
        decreases entries@.len() - i,
    {
        if text_is(&entries[i].0, key) {
            return Some(i);
        }
        i = i + 1;
    }
    None
}

proof fn lemma_find_key<V, W>(entries: Seq<(Seq<char>, W)>, ex: Seq<(String, V)>, key: Seq<char>, r: Option<usize>)
    requires
        entries.len() == ex.len(),
        forall|j: int| 0 <= j < ex.len() ==> #[trigger] entries[j].0 == ex[j].0@,
        match r {
            Some(i) => i < ex.len() && ex[i as int].0@ == key && forall|j: int| 0 <= j < i ==> ex[j].0@ != key,
            None => forall|j: int| 0 <= j < ex.len() ==> ex[j].0@ != key,
        },
    ensures
        match r {
            Some(i) => first_with_key(entries, key, i as int) && find_key(entries, key) == Some(entries[i as int].1),
            None => find_key(entries, key) is None,
        },
{
    match r {
        Some(i) => {
            assert(first_with_key(entries, key, i as int));
            let k = choose|k: int| first_with_key(entries, key, k);
            if k < i {
                assert(entries[k].0 == ex[k].0@);
            }
            if i < k {
                assert(entries[i as int].0 == ex[i as int].0@);
            }
        },
        None => {
            if exists|k: int| first_with_key(entries, key, k) {
                let k = choose|k: int| first_with_key(entries, key, k);
                assert(entries[k].0 == ex[k].0@);
            }
        },
    }
}

/// Takes the members at positions `a` and `b` (different ones) out of `members`.
fn take_two(members: Vec<(String, ConfigMember)>, a: Option<usize>, b: Option<usize>) -> (r: (
    Option<ConfigMember>,
    Option<ConfigMember>,
))
    requires
        a matches Some(i) ==> i < members@.len(),
        b matches Some(j) ==> j < members@.len(),
        match (a, b) {
            (Some(i), Some(j)) => i != j,
            _ => true,
        },
    ensures
        member_view(r.0) == (match a {
            Some(i) => Some(members@[i as int].1@),
            None => None,
        }),
        member_view(r.1) == (match b {
            Some(j) => Some(members@[j as int].1@),
            None => None,
        }),
{
    let ghost all = members@;
    let mut v = members;
    match (a, b) {
        (Some(i), Some(j)) => {
            if i < j {
                let y = v.remove(j);
                let x = v.remove(i);
                (Some(x.1), Some(y.1))
            } else {
                let x = v.remove(i);
                let y = v.remove(j);
                (Some(x.1), Some(y.1))
            }
        },
        (Some(i), None) => {
            let x = v.remove(i);
            (Some(x.1), None)
        },
        (None, Some(j)) => {
            let y = v.remove(j);
            (None, Some(y.1))
        },
        (None, None) => (None, None),
    }
}

/// What the top-level entries of a document hold under `macros.reexports` and
/// `macros.prefixes`, in that order.
pub fn macros_members(entries: Vec<(String, TomlEntry)>) -> (r: (Option<ConfigMember>, Option<ConfigMember>))
    ensures
        member_view(r.0) == macros_member(entries_view(entries@), "reexports"@),
        member_view(r.1) == macros_member(entries_view(entries@), "prefixes"@),
{
    let ghost doc = entries_view(entries@);
    let mi = key_index(&entries, "macros");
    proof {
        lemma_find_key(doc, entries@, "macros"@, mi);
    }
    let mut entries = entries;
    match mi {
        Some(i) => {
            let ghost e = entries@[i as int];
            let entry = entries.remove(i);
            match entry.1 {
                TomlEntry::Table(members) => {
                    let ghost mv = members_view(members@);
                    proof {
                        assert(doc[i as int] == (e.0@, e.1@));
                    }
                    let ri = key_index(&members, "reexports");
                    let pi = key_index(&members, "prefixes");
                    proof {
                        lemma_find_key(mv, members@, "reexports"@, ri);
                        lemma_find_key(mv, members@, "prefixes"@, pi);
                        reveal_strlit("reexports");
                        reveal_strlit("prefixes");
                        assert("reexports"@[0] != "prefixes"@[0]);
                        if let (Some(a), Some(b)) = (ri, pi) {
                            assert(members@[a as int].0@ == "reexports"@);
                            assert(members@[b as int].0@ == "prefixes"@);
                            assert(a != b);
                        }
                    }
                    take_two(members, ri, pi)
                },
                TomlEntry::NotTable => (None, None),
            }
        },
        None => (None, None),
    }
}

/// Why a configuration document is refused.
#[derive(Debug)]
pub enum ConfigError {
    /// The text is not TOML; the parser's message.
    Parse(String),
    /// The member (`reexports` or `prefixes`) is not an array of strings.
    NotStringArray(&'static str),
}

/// The member is absent, or an array of strings only.
pub open spec fn is_string_array_view(m: Option<ConfigMemberView>) -> bool {
    match m {
        None => true,
        Some(ConfigMemberView::NotArray) => false,
        Some(ConfigMemberView::Array(items)) => forall|k: int| 0 <= k < items.len() ==> #[trigger] items[k] is Some,
    }
}

/// The strings a member lists: the array's strings, or `["bevy_"]` when absent.
pub open spec fn member_strings(m: Option<ConfigMemberView>) -> Seq<Seq<char>> {
    match m {
        Some(ConfigMemberView::Array(items)) => items.map_values(|i: Option<Seq<char>>| i.unwrap()),
        _ => seq!["bevy_"@],
    }
}

/// The value is absent, or an array of strings only.
pub open spec fn is_string_array(value: Option<ConfigMember>) -> bool {
    match value {
        None => true,
        Some(ConfigMember::NotArray) => false,
        Some(ConfigMember::Array(items)) => forall|k: int| 0 <= k < items@.len() ==> #[trigger] items@[k] is Some,
    }
}

/// The strings that a configuration member lists: the array's strings in order, or
/// `["bevy_"]` when the member is absent.
pub fn config_member_to_string_array(value: Option<ConfigMember>) -> (r: Vec<String>)
    requires
        is_string_array(value),
    ensures
        match value {
            None => r@.len() == 1 && r@[0]@ == "bevy_"@,
            Some(ConfigMember::Array(items)) => r@.len() == items@.len() && forall|k: int|
                0 <= k < items@.len() ==> (items@[k] matches Some(s) && #[trigger] r@[k]@ == s@),
            Some(ConfigMember::NotArray) => false,
        },
{
    match value {
        None => {
            let mut r: Vec<String> = Vec::new();
            r.push(String::from_str("bevy_"));
            r
        },
        Some(ConfigMember::NotArray) => Vec::new(),
        Some(ConfigMember::Array(items)) => {
            let ghost all = items@;
            let mut rest = items;
            let mut r: Vec<String> = Vec::new();
            while rest.len() > 0
                invariant
                    rest@.len() <= all.len(),
                    rest@ == all.skip(all.len() - rest@.len()),
                    forall|k: int| 0 <= k < all.len() ==> #[trigger] all[k] is Some,
                    r@.len() == all.len() - rest@.len(),
                    forall|k: int| 0 <= k < r@.len() ==> (all[k] matches Some(s) && #[trigger] r@[k]@ == s@),
                decreases rest@.len(),
            {
                let ghost done = all.len() - rest@.len();
                let item = rest.remove(0);
                assert(rest@ =~= all.skip(done + 1));
                match item {
                    Some(s) => r.push(s),
                    None => {},
                }
            }
            r
        },
    }
}

/// Whether every item is a string.
fn all_strings(items: &Vec<Option<String>>) -> (r: bool)
    ensures
        r == forall|k: int| 0 <= k < items@.len() ==> #[trigger] items@[k] is Some,
{
    let mut k: usize = 0;
    while k < items.len()
        invariant
            k <= items@.len(),
            forall|j: int| 0 <= j < k ==> #[trigger] items@[j] is Some,
        decreases items@.len() - k,
    {
        if items[k].is_none() {
            return false;
        }
        k = k + 1;
    }
    true
}

/// Whether the member is absent or an array of strings only.
fn is_string_array_exec(value: &Option<ConfigMember>) -> (r: bool)
    ensures
        r == is_string_array(*value),
        r == is_string_array_view(member_view(*value)),
{
    match value {
        None => true,
        Some(ConfigMember::NotArray) => false,
        Some(ConfigMember::Array(items)) => {
            let r = all_strings(items);
            proof {
                let v = member_view(*value);
                if let Some(ConfigMemberView::Array(vs)) = v {
                    assert forall|j: int| 0 <= j < vs.len() implies (#[trigger] vs[j] is Some) == (items@[j] is Some) by {
                    }
                    if !r {
                        let j = choose|j: int| 0 <= j < items@.len() && !(#[trigger] items@[j] is Some);
                        assert(!(vs[j] is Some));
                    }
                }
            }
            r
        },
    }
}

/// The strings of a member, by its view.
proof fn lemma_member_strings(m: Option<ConfigMemberView>, r: Seq<String>)
    requires
        is_string_array_view(m),
        match m {
            None => r.len() == 1 && r[0]@ == "bevy_"@,
            Some(ConfigMemberView::Array(items)) => r.len() == items.len() && forall|k: int|
                0 <= k < items.len() ==> (items[k] matches Some(s) && #[trigger] r[k]@ == s),
            Some(ConfigMemberView::NotArray) => false,
        },
    ensures
        r.map_values(|s: String| s@) == member_strings(m),
{
    match m {
        Some(ConfigMemberView::Array(items)) => {
            assert forall|k: int| 0 <= k < r.len() implies r.map_values(|s: String| s@)[k] == member_strings(m)[k] by {
                assert(items[k] is Some);
                assert(r[k]@ == items[k].unwrap());
            }
            assert(r.map_values(|s: String| s@) =~= member_strings(m));
        },
        _ => {
            assert(r.map_values(|s: String| s@) =~= member_strings(m));
        },
    }
}

/// Configuration of the macros: the crates whose re-exports are searched, and the
/// prefixes of the crate names.
#[derive(Clone)]
pub struct BevyManifestConfig {
    pub reexports: Vec<String>,
    pub prefixes: Vec<String>,
    source: Option<(PathBuf, SystemTime)>,
}

impl BevyManifestConfig {
    /// The crates whose re-exports are searched.
    pub closed spec fn reexport_list(&self) -> Seq<String> {
        self.reexports@
    }

    /// The prefixes of the crate names.
    pub closed spec fn prefix_list(&self) -> Seq<String> {
        self.prefixes@
    }

    /// The file the configuration was read from, and its modification time.
    pub closed spec fn source_of(&self) -> Option<(PathBuf, SystemTime)> {
        self.source
    }

    /// The configuration used when no configuration file is found: re-exports from
    /// `bevy`, crates prefixed `bevy_`.
    pub fn fallback() -> (r: Self)
        ensures
            r.reexport_list().len() == 1 && r.reexport_list()[0]@ == "bevy"@,
            r.prefix_list().len() == 1 && r.prefix_list()[0]@ == "bevy_"@,
            r.source_of() is None,
    {
        let mut reexports: Vec<String> = Vec::new();
        reexports.push(String::from_str("bevy"));
        let mut prefixes: Vec<String> = Vec::new();
        prefixes.push(String::from_str("bevy_"));
        BevyManifestConfig { reexports, prefixes, source: None }
    }

    /// The configuration that the members of a document give: `prefixes` is checked
    /// first, then `reexports`; each must be absent or an array of strings.
    pub fn from_members(
        reexports: Option<ConfigMember>,
        prefixes: Option<ConfigMember>,
        source: Option<(PathBuf, SystemTime)>,
    ) -> (r: Result<Self, ConfigError>)
        ensures
            match r {
                Ok(c) => {
                    &&& is_string_array_view(member_view(prefixes))
                    &&& is_string_array_view(member_view(reexports))
                    &&& c.prefix_list().map_values(|s: String| s@) == member_strings(member_view(prefixes))
                    &&& c.reexport_list().map_values(|s: String| s@) == member_strings(member_view(reexports))
                    &&& c.source_of() == source
                },
                Err(ConfigError::NotStringArray(member)) => if !is_string_array_view(member_view(prefixes)) {
                    member@ == "prefixes"@
                } else {
                    !is_string_array_view(member_view(reexports)) && member@ == "reexports"@
                },
                Err(ConfigError::Parse(_)) => false,
            },
    {
        let prefixes_ok = is_string_array_exec(&prefixes);
        if !prefixes_ok {
            return Err(ConfigError::NotStringArray("prefixes"));
        }
        let reexports_ok = is_string_array_exec(&reexports);
        if !reexports_ok {
            return Err(ConfigError::NotStringArray("reexports"));
        }
        let ghost pv = member_view(prefixes);
        let ghost rv = member_view(reexports);
        let prefixes = config_member_to_string_array(prefixes);
        let reexports = config_member_to_string_array(reexports);
        proof {
            lemma_member_strings(pv, prefixes@);
            lemma_member_strings(rv, reexports@);
        }
        Ok(BevyManifestConfig { reexports, prefixes, source })
    }

    /// What the configuration of a parsed document is: the configuration that its
    /// `macros.reexports` and `macros.prefixes` give, or why they are refused (see
    /// [`Self::from_members`]).
    pub open spec fn is_config_of(
        doc: Seq<(Seq<char>, TomlEntryView)>,
        source: Option<(PathBuf, SystemTime)>,
        r: Result<Self, ConfigError>,
    ) -> bool {
        let reexports = macros_member(doc, "reexports"@);
        let prefixes = macros_member(doc, "prefixes"@);
        match r {
            Ok(c) => {
                &&& is_string_array_view(prefixes)
                &&& is_string_array_view(reexports)
                &&& c.prefix_list().map_values(|s: String| s@) == member_strings(prefixes)
                &&& c.reexport_list().map_values(|s: String| s@) == member_strings(reexports)
                &&& c.source_of() == source
            },
            Err(ConfigError::NotStringArray(member)) => if !is_string_array_view(prefixes) {
                member@ == "prefixes"@
            } else {
                !is_string_array_view(reexports) && member@ == "reexports"@
            },
            Err(ConfigError::Parse(_)) => false,
        }
    }

    /// The configuration that the top-level entries of a parsed TOML document give, or
    /// why they are refused.
    pub fn from_entries(entries: Vec<(String, TomlEntry)>, source: Option<(PathBuf, SystemTime)>) -> (r: Result<
        Self,
        ConfigError,
    >)
        ensures
            Self::is_config_of(entries_view(entries@), source, r),
    {
        let (reexports, prefixes) = macros_members(entries);
        Self::from_members(reexports, prefixes, source)
    }

    /// The configuration that a TOML document gives (see [`Self::from_entries`]), or why
    /// the document is refused.
    pub fn from_text(text: &str, source: Option<(PathBuf, SystemTime)>) -> (r: Result<Self, ConfigError>)
        ensures
            match toml_top_level(text@) {
                Err(msg) => r matches Err(ConfigError::Parse(m)) && m@ == msg,
                Ok(doc) => Self::is_config_of(doc, source, r),
            },
    {
        match parse_toml_top_level(text) {
            Ok(entries) => Self::from_entries(entries, source),
            Err(msg) => Err(ConfigError::Parse(msg)),
        }
    }

    /// The file the configuration was read from and its modification time, if any.
    pub fn source(&self) -> (r: &Option<(PathBuf, SystemTime)>)
        ensures
            *r == self.source_of(),
    {
        &self.source
    }
}

/// The components of a path, each as bytes.
pub open spec fn components_view(p: Seq<Vec<u8>>) -> Seq<Seq<u8>> {
    p.map_values(|c: Vec<u8>| c@)
}

/// The path `path` starts with the components of `base`.
pub open spec fn starts_with_components(path: Seq<Seq<u8>>, base: Seq<Seq<u8>>) -> bool {
    base.len() <= path.len() && path.take(base.len() as int) == base
}

/// Whether two byte strings are equal.
fn bytes_eq(a: &Vec<u8>, b: &Vec<u8>) -> (r: bool)
    ensures
        r == (a@ == b@),
{
    if a.len() != b.len() {
        return false;
    }
    let mut k: usize = 0;
    while k < a.len()
        invariant
            a@.len() == b@.len(),
            k <= a@.len(),
            forall|j: int| 0 <= j < k ==> a@[j] == b@[j],
        decreases a@.len() - k,
    {
        if a[k] != b[k] {
            return false;
        }
        k = k + 1;
    }
    assert(a@ =~= b@);
    true
}

/// Whether the path `path` starts with the components of `base`.
fn starts_with(path: &Vec<Vec<u8>>, base: &Vec<Vec<u8>>) -> (r: bool)
    ensures
        r == starts_with_components(components_view(path@), components_view(base@)),
{
    if base.len() > path.len() {
        return false;
    }
    let mut k: usize = 0;
    while k < base.len()
        invariant
            base@.len() <= path@.len(),
            k <= base@.len(),
            forall|j: int| 0 <= j < k ==> path@[j]@ == base@[j]@,
        decreases base@.len() - k,
    {
        if !bytes_eq(&path[k], &base[k]) {
            proof {
                assert(components_view(path@).take(base@.len() as int)[k as int] != components_view(base@)[k as int]);
            }
            return false;
        }
        k = k + 1;
    }
    proof {
        assert(components_view(path@).take(base@.len() as int) =~= components_view(base@));
    }
    true
}

/// The path of the configuration file of the directory `root`, as components: those of
/// `root`, then `.config`, then `bevy_manifest.toml`.
pub fn path_to_config(root: &Vec<Vec<u8>>) -> (r: Vec<Vec<u8>>)
    ensures
        components_view(r@) == components_view(root@) + seq![".config".spec_bytes(), "bevy_manifest.toml".spec_bytes()],
{
    let mut r: Vec<Vec<u8>> = Vec::new();
    let mut i: usize = 0;
    while i < root.len()
        invariant
            i <= root@.len(),
            r@.len() == i,
            components_view(r@) == components_view(root@).take(i as int),
        decreases root@.len() - i,
    {
        let c = slice_to_vec(root[i].as_slice());
        let ghost before = r@;
        r.push(c);
        proof {
            assert(r@[i as int]@ == root@[i as int]@);
            assert forall|j: int| 0 <= j < i implies r@[j] == before[j] by {}
            assert(components_view(before) == components_view(root@).take(i as int));
            assert forall|j: int| 0 <= j < i implies #[trigger] components_view(r@)[j] == components_view(root@)[j] by {
                assert(components_view(before)[j] == components_view(root@).take(i as int)[j]);
            }
            assert(components_view(r@) =~= components_view(root@).take(i + 1));
        }
        i = i + 1;
    }
    r.push(".config".as_bytes_vec());
    r.push("bevy_manifest.toml".as_bytes_vec());
    proof {
        assert(components_view(root@).take(root@.len() as int) =~= components_view(root@));
        assert(components_view(r@) =~= components_view(root@) + seq![".config".spec_bytes(), "bevy_manifest.toml".spec_bytes()]);
    }
    r
}

/// Of the roots of cached configurations, the one for the directory `dir`: a root equal
/// to `dir` if there is one (the first), else the first root that `dir` lies under.
pub fn cached_config_index(roots: &Vec<Vec<Vec<u8>>>, dir: &Vec<Vec<u8>>) -> (r: Option<usize>)
    ensures
        match r {
            Some(i) => i < roots@.len() && if exists|j: int|
                0 <= j < roots@.len() && #[trigger] components_view(roots@[j]@) == components_view(dir@) {
                components_view(roots@[i as int]@) == components_view(dir@) && forall|j: int|
                    0 <= j < i ==> #[trigger] components_view(roots@[j]@) != components_view(dir@)
            } else {
                starts_with_components(components_view(dir@), components_view(roots@[i as int]@)) && forall|j: int|
                    0 <= j < i ==> !starts_with_components(components_view(dir@), #[trigger] components_view(roots@[j]@))
            },
            None => forall|j: int|
                0 <= j < roots@.len() ==> !starts_with_components(components_view(dir@), #[trigger] components_view(roots@[j]@)),
        },
{
    let ghost dv = components_view(dir@);
    let mut i: usize = 0;
    while i < roots.len()
        invariant
            i <= roots@.len(),
            dv == components_view(dir@),
            forall|j: int| 0 <= j < i ==> #[trigger] components_view(roots@[j]@) != dv,
        decreases roots@.len() - i,
    {
        if roots[i].len() == dir.len() && starts_with(dir, &roots[i]) {
            proof {
                assert(components_view(dir@).take(dir@.len() as int) =~= components_view(dir@));
            }
            return Some(i);
        }
        proof {
            if components_view(roots@[i as int]@) == dv {
                assert(starts_with_components(dv, components_view(roots@[i as int]@))) by {
                    assert(dv.take(dv.len() as int) =~= dv);
                }
            }
        }
        i = i + 1;
    }
    let mut k: usize = 0;
    while k < roots.len()
        invariant
            k <= roots@.len(),
            dv == components_view(dir@),
            forall|j: int| 0 <= j < roots@.len() ==> #[trigger] components_view(roots@[j]@) != dv,
            forall|j: int| 0 <= j < k ==> !starts_with_components(dv, #[trigger] components_view(roots@[j]@)),
        decreases roots@.len() - k,
    {
        if starts_with(dir, &roots[k]) {
            return Some(k);
        }
        k = k + 1;
    }
    None
}

} // verus!
