//! Identifier of a plugin type.

use crate::plugin::Plugin;
use std::any::TypeId;
use vstd::prelude::*;

verus! {

/// Unique identifier of a plugin type: the path of the type.
#[derive(Debug, Hash)]
pub struct PluginTypeId(String);

impl View for PluginTypeId {
    type V = Seq<char>;

    closed spec fn view(&self) -> Seq<char> {
        self.0@
    }
}

#[verifier::external_type_specification]
#[verifier::external_body]
pub struct ExTypeId(TypeId);

/// The `TypeId` of the type `P`.
///
/// Calls `TypeId::of`; nothing is claimed of the value but what `TypeId` comparison
/// gives (see [`same_type`]).
#[verifier::external_body]
pub(crate) fn type_id_of<P: ?Sized + 'static>() -> TypeId {
    TypeId::of::<P>()
}

/// Whether two `TypeId`s are of the same type.
///
/// Calls `==` on `TypeId`. Claimed: it is true exactly when the two values are equal,
/// as std documents a `TypeId` as the identifier of one type, compared by value.
#[verifier::external_body]
pub(crate) fn same_type(a: &TypeId, b: &TypeId) -> (r: bool)
    ensures
        r == (*a == *b),
{
    *a == *b
}

impl PluginTypeId {
    /// Builds a [`PluginTypeId`] from the name that a plugin reports.
    pub fn new<P: Plugin + ?Sized>(plugin: &P) -> (r: Self)
        ensures
            exists|n: &str| call_ensures(P::name, (plugin,), n) && r@ == n@,
    {
        let n = plugin.name();
        assert(call_ensures(P::name, (plugin,), n));
        PluginTypeId(n.to_owned())
    }

    /// Builds a [`PluginTypeId`] from a static string, which is meant to be the
    /// path of the plugin's type.
    pub fn from_static_str(name: &'static str) -> (r: Self)
        ensures
            r@ == name@,
    {
        PluginTypeId(name.to_owned())
    }

    /// The text of the identifier, as it is displayed.
    pub fn to_string(&self) -> (r: String)
        ensures
            r@ == self@,
    {
        self.0.clone()
    }
}

impl Clone for PluginTypeId {
    fn clone(&self) -> (r: Self)
        ensures
            r@ == self@,
    {
        PluginTypeId(self.0.clone())
    }
}

impl PartialEq for PluginTypeId {
    fn eq(&self, other: &Self) -> (r: bool) {
        self.0 == other.0
    }
}

impl vstd::std_specs::cmp::PartialEqSpecImpl for PluginTypeId {
    open spec fn obeys_eq_spec() -> bool {
        true
    }

    open spec fn eq_spec(&self, other: &Self) -> bool {
        self@ == other@
    }
}

impl Eq for PluginTypeId {
}

} // verus!
