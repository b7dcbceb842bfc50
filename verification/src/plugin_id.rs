//! Identifiers of plugins and the dependencies that plugins declare on each other.

use uuid::Uuid;
use vstd::prelude::*;

verus! {

/// The lowercase hexadecimal digit of `n`, for `n` below 16.
pub open spec fn hex_digit(n: int) -> char {
    seq!['0', '1', '2', '3', '4', '5', '6', '7', '8', '9', 'a', 'b', 'c', 'd', 'e', 'f'][n]
}

/// The 32 hexadecimal digits of 16 bytes, in order, the high half of each byte first.
pub open spec fn hex_digits(b: Seq<u8>) -> Seq<char> {
    Seq::new(32, |k: int| if k % 2 == 0 { hex_digit(b[k / 2] as int / 16) } else { hex_digit(b[k / 2] as int % 16) })
}

/// Whether position `k` of the hyphenated form holds a hyphen.
pub open spec fn is_hyphen_position(k: int) -> bool {
    k == 8 || k == 13 || k == 18 || k == 23
}

/// How many hyphens the hyphenated form holds before position `k`.
pub open spec fn hyphens_before(k: int) -> int {
    if k <= 8 {
        0
    } else if k <= 13 {
        1
    } else if k <= 18 {
        2
    } else if k <= 23 {
        3
    } else {
        4
    }
}

/// The hyphenated form of 16 bytes: their hexadecimal digits in groups of 8, 4, 4, 4 and
/// 12, separated by hyphens.
pub open spec fn hyphenated(b: Seq<u8>) -> Seq<char> {
    Seq::new(36, |k: int| if is_hyphen_position(k) { '-' } else { hex_digits(b)[k - hyphens_before(k)] })
}

/// The bytes of a version 4 UUID: 16 bytes, the high half of byte 6 is 4 (the version),
/// and the two high bits of byte 8 are `10` (the RFC 4122 variant).
pub open spec fn is_v4_bytes(b: Seq<u8>) -> bool {
    &&& b.len() == 16
    &&& b[6] / 16 == 4
    &&& b[8] / 64 == 2
}

/// The bytes of a new random (version 4) UUID.
///
/// Calls `Uuid::new_v4` and hands back the UUID's bytes. Claimed: what the uuid source
/// sets in every such UUID, the version and the variant bits; the other bits are random
/// and nothing is claimed of them.
#[verifier::external_body]
fn uuid_new_v4() -> (r: [u8; 16])
    ensures
        is_v4_bytes(r@),
{
    Uuid::new_v4().into_bytes()
}

/// Text in the hyphenated form: 32 lowercase hexadecimal digits in groups of 8, 4, 4, 4
/// and 12, separated by hyphens.
pub open spec fn is_hyphenated_uuid(s: Seq<char>) -> bool {
    &&& s.len() == 36
    &&& forall|k: int|
        0 <= k < 36 ==> (if k == 8 || k == 13 || k == 18 || k == 23 {
            s[k] == '-'
        } else {
            ('0' <= #[trigger] s[k] <= '9') || ('a' <= s[k] <= 'f')
        })
}

/// Text of a version 4 UUID in the hyphenated form: its version digit (the 15th
/// character) is `4` and its variant digit (the 20th) is one of `8`, `9`, `a`, `b`.
pub open spec fn is_v4_uuid_text(s: Seq<char>) -> bool {
    &&& is_hyphenated_uuid(s)
    &&& s[14] == '4'
    &&& (s[19] == '8' || s[19] == '9' || s[19] == 'a' || s[19] == 'b')
}

/// The text of the UUID with the given bytes.
///
/// Calls `Uuid::to_string` on `Uuid::from_bytes(bytes)`. Claimed: the uuid source
/// displays a UUID in its hyphenated lowercase form, the bytes in order.
#[verifier::external_body]
fn uuid_to_string(bytes: [u8; 16]) -> (r: String)
    ensures
        r@ == hyphenated(bytes@),
{
    Uuid::from_bytes(bytes).to_string()
}

/// Every byte gives two lowercase hexadecimal digits.
proof fn lemma_hex_digit(n: int)
    requires
        0 <= n < 16,
    ensures
        ('0' <= hex_digit(n) <= '9') || ('a' <= hex_digit(n) <= 'f'),
{
    let d = seq!['0', '1', '2', '3', '4', '5', '6', '7', '8', '9', 'a', 'b', 'c', 'd', 'e', 'f'];
    assert(d[n] == hex_digit(n));
    assert(0 <= n < 16);
}

/// The hyphenated form of the bytes of a version 4 UUID is the text of a version 4 UUID.
proof fn lemma_v4_text(b: Seq<u8>)
    requires
        is_v4_bytes(b),
    ensures
        is_v4_uuid_text(hyphenated(b)),
{
    let s = hyphenated(b);
    assert forall|k: int| 0 <= k < 36 implies (if k == 8 || k == 13 || k == 18 || k == 23 {
        s[k] == '-'
    } else {
        ('0' <= #[trigger] s[k] <= '9') || ('a' <= s[k] <= 'f')
    }) by {
        if !is_hyphen_position(k) {
            let m = k - hyphens_before(k);
            assert(0 <= m < 32);
            let x = b[m / 2];
            if m % 2 == 0 {
                lemma_hex_digit(x as int / 16);
            } else {
                lemma_hex_digit(x as int % 16);
            }
        }
    }
    assert(s[14] == hex_digit(b[6] as int / 16));
    assert(s[19] == hex_digit(b[8] as int / 16));
    let v = b[8] as int / 16;
    assert(8 <= v < 12);
    let d = seq!['0', '1', '2', '3', '4', '5', '6', '7', '8', '9', 'a', 'b', 'c', 'd', 'e', 'f'];
    assert(d[4] == '4' && d[8] == '8' && d[9] == '9' && d[10] == 'a' && d[11] == 'b');
}

/// Unique identifier of a plugin: by default the path of the plugin's type.
#[derive(Debug, Hash)]
pub struct PluginId(String);

impl View for PluginId {
    type V = Seq<char>;

    closed spec fn view(&self) -> Seq<char> {
        self.0@
    }
}

impl PluginId {
    /// Builds a random [`PluginId`]: the text of a new random (version 4) UUID.
    pub fn random() -> (r: Self)
        ensures
            is_v4_uuid_text(r@),
    {
        let bytes = uuid_new_v4();
        let text = uuid_to_string(bytes);
        proof {
            lemma_v4_text(bytes@);
        }
        PluginId(text)
    }

    /// Builds a [`PluginId`] that holds exactly the given text.
    pub fn from_str(name: &str) -> (r: Self)
        ensures
            r@ == name@,
    {
        PluginId(name.to_owned())
    }

    /// Builds a [`PluginId`] that holds exactly the given text.
    pub fn from_string(name: String) -> (r: Self)
        ensures
            r@ == name@,
    {
        PluginId(name)
    }

    /// The text of the identifier.
    pub fn as_str(&self) -> (r: &str)
        ensures
            r@ == self@,
    {
        self.0.as_str()
    }
}

impl Clone for PluginId {
    fn clone(&self) -> (r: Self)
        ensures
            r@ == self@,
    {
        PluginId(self.0.clone())
    }
}

impl PartialEq for PluginId {
    fn eq(&self, other: &Self) -> (r: bool) {
        self.0 == other.0
    }
}

impl vstd::std_specs::cmp::PartialEqSpecImpl for PluginId {
    open spec fn obeys_eq_spec() -> bool {
        true
    }

    open spec fn eq_spec(&self, other: &Self) -> bool {
        self@ == other@
    }
}

impl Eq for PluginId {
}

/// Dependency of a plugin on another plugin, by the other plugin's id.
#[derive(Debug, Hash)]
pub enum PluginDependency {
    /// The plugin must be present: building fails when it is missing.
    Required(PluginId),
    /// The plugin may be absent: the dependency is then ignored.
    Optional(PluginId),
}

/// A dependency as a value: the id it names and whether it is required.
pub type DependencyView = (Seq<char>, bool);

impl View for PluginDependency {
    type V = DependencyView;

    open spec fn view(&self) -> DependencyView {
        match self {
            PluginDependency::Required(id) => (id@, true),
            PluginDependency::Optional(id) => (id@, false),
        }
    }
}

impl PluginDependency {
    /// The id of the plugin this dependency names.
    pub fn id(&self) -> (r: &PluginId)
        ensures
            r@ == self@.0,
    {
        match self {
            PluginDependency::Required(id) => id,
            PluginDependency::Optional(id) => id,
        }
    }

    /// Whether the dependency is required.
    pub fn is_required(&self) -> (r: bool)
        ensures
            r == self@.1,
    {
        match self {
            PluginDependency::Required(_) => true,
            PluginDependency::Optional(_) => false,
        }
    }
}

impl Clone for PluginDependency {
    fn clone(&self) -> (r: Self)
        ensures
            r@ == self@,
    {
        match self {
            PluginDependency::Required(id) => PluginDependency::Required(id.clone()),
            PluginDependency::Optional(id) => PluginDependency::Optional(id.clone()),
        }
    }
}

impl PartialEq for PluginDependency {
    fn eq(&self, other: &Self) -> (r: bool) {
        match (self, other) {
            (PluginDependency::Required(a), PluginDependency::Required(b)) => a == b,
            (PluginDependency::Optional(a), PluginDependency::Optional(b)) => a == b,
            _ => false,
        }
    }
}

impl vstd::std_specs::cmp::PartialEqSpecImpl for PluginDependency {
    open spec fn obeys_eq_spec() -> bool {
        true
    }

    open spec fn eq_spec(&self, other: &Self) -> bool {
        self@ == other@
    }
}

impl Eq for PluginDependency {
}

} // verus!
