//! The [`Plugin`] trait and the plugin life-cycle states.

use crate::plugin_id::{PluginDependency, PluginId};
use crate::plugin_type_id::PluginTypeId;
use vstd::prelude::*;

mod sealed;

verus! {

/// A collection of app logic and configuration.
///
/// Plugins are considered duplicate if they have the same [`name()`](Self::name),
/// which by convention is the path of the plugin's type.
pub trait Plugin {
    /// Configures a name for the [`Plugin`], used to check plugin uniqueness and for
    /// debugging.
    fn name(&self) -> &str;

    /// If the plugin can be meaningfully instantiated several times, override this
    /// method to return `false`.
    fn is_unique(&self) -> (r: bool)
        default_ensures
            r,
    {
        true
    }

    /// This plugin assumes that these plugins are added before this one.
    fn depends_on(&self) -> (r: Vec<PluginTypeId>)
        default_ensures
            r@.len() == 0,
    {
        Vec::new()
    }

    /// The id under which the plugin is registered in a plugin graph: by default its name.
    fn id(&self) -> (r: PluginId)
        default_ensures
            exists|n: &str| call_ensures(Self::name, (self,), n) && r@ == n@,
    {
        let n = self.name();
        assert(call_ensures(Self::name, (self,), n));
        PluginId::from_str(n)
    }

    /// Plugins that must be built after this one.
    fn build_before(&self) -> (r: Vec<PluginDependency>)
        default_ensures
            r@.len() == 0,
    {
        Vec::new()
    }

    /// Plugins that must be built before this one.
    fn build_after(&self) -> (r: Vec<PluginDependency>)
        default_ensures
            r@.len() == 0,
    {
        Vec::new()
    }
}

/// Plugins state in the application.
#[derive(PartialEq, Eq, Debug, Clone, Copy, PartialOrd, Ord, Structural)]
pub enum PluginsState {
    /// Plugins are being added.
    Adding,
    /// All plugins already added are ready.
    Ready,
    /// Finish has been executed for all plugins added.
    Finished,
    /// Cleanup has been executed for all plugins added.
    Cleaned,
}

/// Marker of a single plugin in a collection of plugins.
pub struct PluginMarker;

/// Marker of a plugin group in a collection of plugins.
pub struct PluginGroupMarker;

/// Marker of a tuple of plugins in a collection of plugins.
pub struct PluginsTupleMarker;

/// Types that represent a set of [`Plugin`]s: every plugin, and tuples of up to 15
/// such sets.
pub trait Plugins<Marker>: sealed::PluginsSealed<Marker> {
    /// The number of plugins in the set.
    spec fn plugin_count(&self) -> nat;

    /// `ids` are the names of the plugins of the set, in order.
    spec fn names_are(&self, ids: Seq<Seq<char>>) -> bool;

    /// The type ids of the plugins, in order: the name of each plugin.
    fn plugin_type_ids(&self) -> (r: Vec<PluginTypeId>)
        ensures
            r@.len() == self.plugin_count(),
            self.names_are(type_id_views(r@)),
    ;
}

/// The texts of type ids.
pub open spec fn type_id_views(s: Seq<PluginTypeId>) -> Seq<Seq<char>> {
    s.map_values(|t: PluginTypeId| t@)
}

proof fn lemma_views_append(a: Seq<PluginTypeId>, b: Seq<PluginTypeId>)
    ensures
        type_id_views(a + b) == type_id_views(a) + type_id_views(b),
{
    assert(type_id_views(a + b) =~= type_id_views(a) + type_id_views(b));
}

impl<P: Plugin> sealed::PluginsSealed<PluginMarker> for P {
}

impl<P: Plugin> Plugins<PluginMarker> for P {
    open spec fn plugin_count(&self) -> nat {
        1
    }

    open spec fn names_are(&self, ids: Seq<Seq<char>>) -> bool {
        ids.len() == 1 && exists|n: &str| call_ensures(P::name, (self,), n) && ids[0] == n@
    }

    fn plugin_type_ids(&self) -> (r: Vec<PluginTypeId>) {
        let mut values: Vec<PluginTypeId> = Vec::new();
        values.push(PluginTypeId::new(self));
        proof {
            assert(type_id_views(values@)[0] == values@[0]@);
        }
        values
    }
}

impl sealed::PluginsSealed<(PluginsTupleMarker,)> for () {
}

impl Plugins<(PluginsTupleMarker,)> for () {
    open spec fn plugin_count(&self) -> nat {
        0
    }

    open spec fn names_are(&self, ids: Seq<Seq<char>>) -> bool {
        ids.len() == 0
    }

    fn plugin_type_ids(&self) -> (r: Vec<PluginTypeId>) {
        let mut values: Vec<PluginTypeId> = Vec::new();
        values
    }
}

impl<M0, P0: Plugins<M0>> sealed::PluginsSealed<(PluginsTupleMarker, M0,)> for (P0,) {
}

impl<M0, P0: Plugins<M0>> Plugins<(PluginsTupleMarker, M0,)> for (P0,) {
    open spec fn plugin_count(&self) -> nat {
        self.0.plugin_count()
    }

    open spec fn names_are(&self, ids: Seq<Seq<char>>) -> bool {
        &&& ids.len() == self.plugin_count()
        &&& self.0.names_are(ids.subrange(0, self.0.plugin_count() as int))
    }

    fn plugin_type_ids(&self) -> (r: Vec<PluginTypeId>) {
        let mut values: Vec<PluginTypeId> = Vec::new();
        let mut ids0 = self.0.plugin_type_ids();
        let ghost w0 = type_id_views(ids0@);
        proof {
            lemma_views_append(values@, ids0@);
        }
        values.append(&mut ids0);
        proof {
            assert(type_id_views(values@) =~= w0);
            assert(type_id_views(values@).subrange(0, w0.len() as int) =~= w0);
        }
        values
    }
}

impl<M0, M1, P0: Plugins<M0>, P1: Plugins<M1>> sealed::PluginsSealed<(PluginsTupleMarker, M0, M1,)> for (P0, P1) {
}

impl<M0, M1, P0: Plugins<M0>, P1: Plugins<M1>> Plugins<(PluginsTupleMarker, M0, M1,)> for (P0, P1) {
    open spec fn plugin_count(&self) -> nat {
        self.0.plugin_count() + self.1.plugin_count()
    }

    open spec fn names_are(&self, ids: Seq<Seq<char>>) -> bool {
        &&& ids.len() == self.plugin_count()
        &&& self.0.names_are(ids.subrange(0, self.0.plugin_count() as int))
        &&& self.1.names_are(ids.subrange(self.0.plugin_count() as int, (self.0.plugin_count() + self.1.plugin_count()) as int))
    }

    fn plugin_type_ids(&self) -> (r: Vec<PluginTypeId>) {
        let mut values: Vec<PluginTypeId> = Vec::new();
        let mut ids0 = self.0.plugin_type_ids();
        let ghost w0 = type_id_views(ids0@);
        proof {
            lemma_views_append(values@, ids0@);
        }
        values.append(&mut ids0);
        let mut ids1 = self.1.plugin_type_ids();
        let ghost w1 = type_id_views(ids1@);
        proof {
            lemma_views_append(values@, ids1@);
        }
        values.append(&mut ids1);
        proof {
            assert(type_id_views(values@) =~= w0 + w1);
            assert(type_id_views(values@).subrange(0, w0.len() as int) =~= w0);
            assert(type_id_views(values@).subrange(w0.len() as int, (w0.len() + w1.len()) as int) =~= w1);
        }
        values
    }
}

impl<M0, M1, M2, P0: Plugins<M0>, P1: Plugins<M1>, P2: Plugins<M2>> sealed::PluginsSealed<(PluginsTupleMarker, M0, M1, M2,)> for (P0, P1, P2) {
}

impl<M0, M1, M2, P0: Plugins<M0>, P1: Plugins<M1>, P2: Plugins<M2>> Plugins<(PluginsTupleMarker, M0, M1, M2,)> for (P0, P1, P2) {
    open spec fn plugin_count(&self) -> nat {
        self.0.plugin_count() + self.1.plugin_count() + self.2.plugin_count()
    }

    open spec fn names_are(&self, ids: Seq<Seq<char>>) -> bool {
        &&& ids.len() == self.plugin_count()
        &&& self.0.names_are(ids.subrange(0, self.0.plugin_count() as int))
        &&& self.1.names_are(ids.subrange(self.0.plugin_count() as int, (self.0.plugin_count() + self.1.plugin_count()) as int))
        &&& self.2.names_are(ids.subrange((self.0.plugin_count() + self.1.plugin_count()) as int, (self.0.plugin_count() + self.1.plugin_count() + self.2.plugin_count()) as int))
    }

    fn plugin_type_ids(&self) -> (r: Vec<PluginTypeId>) {
        let mut values: Vec<PluginTypeId> = Vec::new();
        let mut ids0 = self.0.plugin_type_ids();
        let ghost w0 = type_id_views(ids0@);
        proof {
            lemma_views_append(values@, ids0@);
        }
        values.append(&mut ids0);
        let mut ids1 = self.1.plugin_type_ids();
        let ghost w1 = type_id_views(ids1@);
        proof {
            lemma_views_append(values@, ids1@);
        }
        values.append(&mut ids1);
        let mut ids2 = self.2.plugin_type_ids();
        let ghost w2 = type_id_views(ids2@);
        proof {
            lemma_views_append(values@, ids2@);
        }
        values.append(&mut ids2);
        proof {
            assert(type_id_views(values@) =~= w0 + w1 + w2);
            assert(type_id_views(values@).subrange(0, w0.len() as int) =~= w0);
            assert(type_id_views(values@).subrange(w0.len() as int, (w0.len() + w1.len()) as int) =~= w1);
            assert(type_id_views(values@).subrange((w0.len() + w1.len()) as int, (w0.len() + w1.len() + w2.len()) as int) =~= w2);
        }
        values
    }
}

impl<M0, M1, M2, M3, P0: Plugins<M0>, P1: Plugins<M1>, P2: Plugins<M2>, P3: Plugins<M3>> sealed::PluginsSealed<(PluginsTupleMarker, M0, M1, M2, M3,)> for (P0, P1, P2, P3) {
}

impl<M0, M1, M2, M3, P0: Plugins<M0>, P1: Plugins<M1>, P2: Plugins<M2>, P3: Plugins<M3>> Plugins<(PluginsTupleMarker, M0, M1, M2, M3,)> for (P0, P1, P2, P3) {
    open spec fn plugin_count(&self) -> nat {
        self.0.plugin_count() + self.1.plugin_count() + self.2.plugin_count() + self.3.plugin_count()
    }

    open spec fn names_are(&self, ids: Seq<Seq<char>>) -> bool {
        &&& ids.len() == self.plugin_count()
        &&& self.0.names_are(ids.subrange(0, self.0.plugin_count() as int))
        &&& self.1.names_are(ids.subrange(self.0.plugin_count() as int, (self.0.plugin_count() + self.1.plugin_count()) as int))
        &&& self.2.names_are(ids.subrange((self.0.plugin_count() + self.1.plugin_count()) as int, (self.0.plugin_count() + self.1.plugin_count() + self.2.plugin_count()) as int))
        &&& self.3.names_are(ids.subrange((self.0.plugin_count() + self.1.plugin_count() + self.2.plugin_count()) as int, (self.0.plugin_count() + self.1.plugin_count() + self.2.plugin_count() + self.3.plugin_count()) as int))
    }

    fn plugin_type_ids(&self) -> (r: Vec<PluginTypeId>) {
        let mut values: Vec<PluginTypeId> = Vec::new();
        let mut ids0 = self.0.plugin_type_ids();
        let ghost w0 = type_id_views(ids0@);
        proof {
            lemma_views_append(values@, ids0@);
        }
        values.append(&mut ids0);
        let mut ids1 = self.1.plugin_type_ids();
        let ghost w1 = type_id_views(ids1@);
        proof {
            lemma_views_append(values@, ids1@);
        }
        values.append(&mut ids1);
        let mut ids2 = self.2.plugin_type_ids();
        let ghost w2 = type_id_views(ids2@);
        proof {
            lemma_views_append(values@, ids2@);
        }
        values.append(&mut ids2);
        let mut ids3 = self.3.plugin_type_ids();
        let ghost w3 = type_id_views(ids3@);
        proof {
            lemma_views_append(values@, ids3@);
        }
        values.append(&mut ids3);
        proof {
            assert(type_id_views(values@) =~= w0 + w1 + w2 + w3);
            assert(type_id_views(values@).subrange(0, w0.len() as int) =~= w0);
            assert(type_id_views(values@).subrange(w0.len() as int, (w0.len() + w1.len()) as int) =~= w1);
            assert(type_id_views(values@).subrange((w0.len() + w1.len()) as int, (w0.len() + w1.len() + w2.len()) as int) =~= w2);
            assert(type_id_views(values@).subrange((w0.len() + w1.len() + w2.len()) as int, (w0.len() + w1.len() + w2.len() + w3.len()) as int) =~= w3);
        }
        values
    }
}

impl<M0, M1, M2, M3, M4, P0: Plugins<M0>, P1: Plugins<M1>, P2: Plugins<M2>, P3: Plugins<M3>, P4: Plugins<M4>> sealed::PluginsSealed<(PluginsTupleMarker, M0, M1, M2, M3, M4,)> for (P0, P1, P2, P3, P4) {
}

impl<M0, M1, M2, M3, M4, P0: Plugins<M0>, P1: Plugins<M1>, P2: Plugins<M2>, P3: Plugins<M3>, P4: Plugins<M4>> Plugins<(PluginsTupleMarker, M0, M1, M2, M3, M4,)> for (P0, P1, P2, P3, P4) {
    open spec fn plugin_count(&self) -> nat {
        self.0.plugin_count() + self.1.plugin_count() + self.2.plugin_count() + self.3.plugin_count() + self.4.plugin_count()
    }

    open spec fn names_are(&self, ids: Seq<Seq<char>>) -> bool {
        &&& ids.len() == self.plugin_count()
        &&& self.0.names_are(ids.subrange(0, self.0.plugin_count() as int))
        &&& self.1.names_are(ids.subrange(self.0.plugin_count() as int, (self.0.plugin_count() + self.1.plugin_count()) as int))
        &&& self.2.names_are(ids.subrange((self.0.plugin_count() + self.1.plugin_count()) as int, (self.0.plugin_count() + self.1.plugin_count() + self.2.plugin_count()) as int))
        &&& self.3.names_are(ids.subrange((self.0.plugin_count() + self.1.plugin_count() + self.2.plugin_count()) as int, (self.0.plugin_count() + self.1.plugin_count() + self.2.plugin_count() + self.3.plugin_count()) as int))
        &&& self.4.names_are(ids.subrange((self.0.plugin_count() + self.1.plugin_count() + self.2.plugin_count() + self.3.plugin_count()) as int, (self.0.plugin_count() + self.1.plugin_count() + self.2.plugin_count() + self.3.plugin_count() + self.4.plugin_count()) as int))
    }

    fn plugin_type_ids(&self) -> (r: Vec<PluginTypeId>) {
        let mut values: Vec<PluginTypeId> = Vec::new();
        let mut ids0 = self.0.plugin_type_ids();
        let ghost w0 = type_id_views(ids0@);
        proof {
            lemma_views_append(values@, ids0@);
        }
        values.append(&mut ids0);
        let mut ids1 = self.1.plugin_type_ids();
        let ghost w1 = type_id_views(ids1@);
        proof {
            lemma_views_append(values@, ids1@);
        }
        values.append(&mut ids1);
        let mut ids2 = self.2.plugin_type_ids();
        let ghost w2 = type_id_views(ids2@);
        proof {
            lemma_views_append(values@, ids2@);
        }
        values.append(&mut ids2);
        let mut ids3 = self.3.plugin_type_ids();
        let ghost w3 = type_id_views(ids3@);
        proof {
            lemma_views_append(values@, ids3@);
        }
        values.append(&mut ids3);
        let mut ids4 = self.4.plugin_type_ids();
        let ghost w4 = type_id_views(ids4@);
        proof {
            lemma_views_append(values@, ids4@);
        }
        values.append(&mut ids4);
        proof {
            assert(type_id_views(values@) =~= w0 + w1 + w2 + w3 + w4);
            assert(type_id_views(values@).subrange(0, w0.len() as int) =~= w0);
            assert(type_id_views(values@).subrange(w0.len() as int, (w0.len() + w1.len()) as int) =~= w1);
            assert(type_id_views(values@).subrange((w0.len() + w1.len()) as int, (w0.len() + w1.len() + w2.len()) as int) =~= w2);
            assert(type_id_views(values@).subrange((w0.len() + w1.len() + w2.len()) as int, (w0.len() + w1.len() + w2.len() + w3.len()) as int) =~= w3);
            assert(type_id_views(values@).subrange((w0.len() + w1.len() + w2.len() + w3.len()) as int, (w0.len() + w1.len() + w2.len() + w3.len() + w4.len()) as int) =~= w4);
        }
        values
    }
}

impl<M0, M1, M2, M3, M4, M5, P0: Plugins<M0>, P1: Plugins<M1>, P2: Plugins<M2>, P3: Plugins<M3>, P4: Plugins<M4>, P5: Plugins<M5>> sealed::PluginsSealed<(PluginsTupleMarker, M0, M1, M2, M3, M4, M5,)> for (P0, P1, P2, P3, P4, P5) {
}

impl<M0, M1, M2, M3, M4, M5, P0: Plugins<M0>, P1: Plugins<M1>, P2: Plugins<M2>, P3: Plugins<M3>, P4: Plugins<M4>, P5: Plugins<M5>> Plugins<(PluginsTupleMarker, M0, M1, M2, M3, M4, M5,)> for (P0, P1, P2, P3, P4, P5) {
    open spec fn plugin_count(&self) -> nat {
        self.0.plugin_count() + self.1.plugin_count() + self.2.plugin_count() + self.3.plugin_count() + self.4.plugin_count() + self.5.plugin_count()
    }

    open spec fn names_are(&self, ids: Seq<Seq<char>>) -> bool {
        &&& ids.len() == self.plugin_count()
        &&& self.0.names_are(ids.subrange(0, self.0.plugin_count() as int))
        &&& self.1.names_are(ids.subrange(self.0.plugin_count() as int, (self.0.plugin_count() + self.1.plugin_count()) as int))
        &&& self.2.names_are(ids.subrange((self.0.plugin_count() + self.1.plugin_count()) as int, (self.0.plugin_count() + self.1.plugin_count() + self.2.plugin_count()) as int))
        &&& self.3.names_are(ids.subrange((self.0.plugin_count() + self.1.plugin_count() + self.2.plugin_count()) as int, (self.0.plugin_count() + self.1.plugin_count() + self.2.plugin_count() + self.3.plugin_count()) as int))
        &&& self.4.names_are(ids.subrange((self.0.plugin_count() + self.1.plugin_count() + self.2.plugin_count() + self.3.plugin_count()) as int, (self.0.plugin_count() + self.1.plugin_count() + self.2.plugin_count() + self.3.plugin_count() + self.4.plugin_count()) as int))
        &&& self.5.names_are(ids.subrange((self.0.plugin_count() + self.1.plugin_count() + self.2.plugin_count() + self.3.plugin_count() + self.4.plugin_count()) as int, (self.0.plugin_count() + self.1.plugin_count() + self.2.plugin_count() + self.3.plugin_count() + self.4.plugin_count() + self.5.plugin_count()) as int))
    }

    fn plugin_type_ids(&self) -> (r: Vec<PluginTypeId>) {
        let mut values: Vec<PluginTypeId> = Vec::new();
        let mut ids0 = self.0.plugin_type_ids();
        let ghost w0 = type_id_views(ids0@);
        proof {
            lemma_views_append(values@, ids0@);
        }
        values.append(&mut ids0);
        let mut ids1 = self.1.plugin_type_ids();
        let ghost w1 = type_id_views(ids1@);
        proof {
            lemma_views_append(values@, ids1@);
        }
        values.append(&mut ids1);
        let mut ids2 = self.2.plugin_type_ids();
        let ghost w2 = type_id_views(ids2@);
        proof {
            lemma_views_append(values@, ids2@);
        }
        values.append(&mut ids2);
        let mut ids3 = self.3.plugin_type_ids();
        let ghost w3 = type_id_views(ids3@);
        proof {
            lemma_views_append(values@, ids3@);
        }
        values.append(&mut ids3);
        let mut ids4 = self.4.plugin_type_ids();
        let ghost w4 = type_id_views(ids4@);
        proof {
            lemma_views_append(values@, ids4@);
        }
        values.append(&mut ids4);
        let mut ids5 = self.5.plugin_type_ids();
        let ghost w5 = type_id_views(ids5@);
        proof {
            lemma_views_append(values@, ids5@);
        }
        values.append(&mut ids5);
        proof {
            assert(type_id_views(values@) =~= w0 + w1 + w2 + w3 + w4 + w5);
            assert(type_id_views(values@).subrange(0, w0.len() as int) =~= w0);
            assert(type_id_views(values@).subrange(w0.len() as int, (w0.len() + w1.len()) as int) =~= w1);
            assert(type_id_views(values@).subrange((w0.len() + w1.len()) as int, (w0.len() + w1.len() + w2.len()) as int) =~= w2);
            assert(type_id_views(values@).subrange((w0.len() + w1.len() + w2.len()) as int, (w0.len() + w1.len() + w2.len() + w3.len()) as int) =~= w3);
            assert(type_id_views(values@).subrange((w0.len() + w1.len() + w2.len() + w3.len()) as int, (w0.len() + w1.len() + w2.len() + w3.len() + w4.len()) as int) =~= w4);
            assert(type_id_views(values@).subrange((w0.len() + w1.len() + w2.len() + w3.len() + w4.len()) as int, (w0.len() + w1.len() + w2.len() + w3.len() + w4.len() + w5.len()) as int) =~= w5);
        }
        values
    }
}

impl<M0, M1, M2, M3, M4, M5, M6, P0: Plugins<M0>, P1: Plugins<M1>, P2: Plugins<M2>, P3: Plugins<M3>, P4: Plugins<M4>, P5: Plugins<M5>, P6: Plugins<M6>> sealed::PluginsSealed<(PluginsTupleMarker, M0, M1, M2, M3, M4, M5, M6,)> for (P0, P1, P2, P3, P4, P5, P6) {
}

impl<M0, M1, M2, M3, M4, M5, M6, P0: Plugins<M0>, P1: Plugins<M1>, P2: Plugins<M2>, P3: Plugins<M3>, P4: Plugins<M4>, P5: Plugins<M5>, P6: Plugins<M6>> Plugins<(PluginsTupleMarker, M0, M1, M2, M3, M4, M5, M6,)> for (P0, P1, P2, P3, P4, P5, P6) {
    open spec fn plugin_count(&self) -> nat {
        self.0.plugin_count() + self.1.plugin_count() + self.2.plugin_count() + self.3.plugin_count() + self.4.plugin_count() + self.5.plugin_count() + self.6.plugin_count()
    }

    open spec fn names_are(&self, ids: Seq<Seq<char>>) -> bool {
        &&& ids.len() == self.plugin_count()
        &&& self.0.names_are(ids.subrange(0, self.0.plugin_count() as int))
        &&& self.1.names_are(ids.subrange(self.0.plugin_count() as int, (self.0.plugin_count() + self.1.plugin_count()) as int))
        &&& self.2.names_are(ids.subrange((self.0.plugin_count() + self.1.plugin_count()) as int, (self.0.plugin_count() + self.1.plugin_count() + self.2.plugin_count()) as int))
        &&& self.3.names_are(ids.subrange((self.0.plugin_count() + self.1.plugin_count() + self.2.plugin_count()) as int, (self.0.plugin_count() + self.1.plugin_count() + self.2.plugin_count() + self.3.plugin_count()) as int))
        &&& self.4.names_are(ids.subrange((self.0.plugin_count() + self.1.plugin_count() + self.2.plugin_count() + self.3.plugin_count()) as int, (self.0.plugin_count() + self.1.plugin_count() + self.2.plugin_count() + self.3.plugin_count() + self.4.plugin_count()) as int))
        &&& self.5.names_are(ids.subrange((self.0.plugin_count() + self.1.plugin_count() + self.2.plugin_count() + self.3.plugin_count() + self.4.plugin_count()) as int, (self.0.plugin_count() + self.1.plugin_count() + self.2.plugin_count() + self.3.plugin_count() + self.4.plugin_count() + self.5.plugin_count()) as int))
        &&& self.6.names_are(ids.subrange((self.0.plugin_count() + self.1.plugin_count() + self.2.plugin_count() + self.3.plugin_count() + self.4.plugin_count() + self.5.plugin_count()) as int, (self.0.plugin_count() + self.1.plugin_count() + self.2.plugin_count() + self.3.plugin_count() + self.4.plugin_count() + self.5.plugin_count() + self.6.plugin_count()) as int))
    }

    fn plugin_type_ids(&self) -> (r: Vec<PluginTypeId>) {
        let mut values: Vec<PluginTypeId> = Vec::new();
        let mut ids0 = self.0.plugin_type_ids();
        let ghost w0 = type_id_views(ids0@);
        proof {
            lemma_views_append(values@, ids0@);
        }
        values.append(&mut ids0);
        let mut ids1 = self.1.plugin_type_ids();
        let ghost w1 = type_id_views(ids1@);
        proof {
            lemma_views_append(values@, ids1@);
        }
        values.append(&mut ids1);
        let mut ids2 = self.2.plugin_type_ids();
        let ghost w2 = type_id_views(ids2@);
        proof {
            lemma_views_append(values@, ids2@);
        }
        values.append(&mut ids2);
        let mut ids3 = self.3.plugin_type_ids();
        let ghost w3 = type_id_views(ids3@);
        proof {
            lemma_views_append(values@, ids3@);
        }
        values.append(&mut ids3);
        let mut ids4 = self.4.plugin_type_ids();
        let ghost w4 = type_id_views(ids4@);
        proof {
            lemma_views_append(values@, ids4@);
        }
        values.append(&mut ids4);
        let mut ids5 = self.5.plugin_type_ids();
        let ghost w5 = type_id_views(ids5@);
        proof {
            lemma_views_append(values@, ids5@);
        }
        values.append(&mut ids5);
        let mut ids6 = self.6.plugin_type_ids();
        let ghost w6 = type_id_views(ids6@);
        proof {
            lemma_views_append(values@, ids6@);
        }
        values.append(&mut ids6);
        proof {
            assert(type_id_views(values@) =~= w0 + w1 + w2 + w3 + w4 + w5 + w6);
            assert(type_id_views(values@).subrange(0, w0.len() as int) =~= w0);
            assert(type_id_views(values@).subrange(w0.len() as int, (w0.len() + w1.len()) as int) =~= w1);
            assert(type_id_views(values@).subrange((w0.len() + w1.len()) as int, (w0.len() + w1.len() + w2.len()) as int) =~= w2);
            assert(type_id_views(values@).subrange((w0.len() + w1.len() + w2.len()) as int, (w0.len() + w1.len() + w2.len() + w3.len()) as int) =~= w3);
            assert(type_id_views(values@).subrange((w0.len() + w1.len() + w2.len() + w3.len()) as int, (w0.len() + w1.len() + w2.len() + w3.len() + w4.len()) as int) =~= w4);
            assert(type_id_views(values@).subrange((w0.len() + w1.len() + w2.len() + w3.len() + w4.len()) as int, (w0.len() + w1.len() + w2.len() + w3.len() + w4.len() + w5.len()) as int) =~= w5);
            assert(type_id_views(values@).subrange((w0.len() + w1.len() + w2.len() + w3.len() + w4.len() + w5.len()) as int, (w0.len() + w1.len() + w2.len() + w3.len() + w4.len() + w5.len() + w6.len()) as int) =~= w6);
        }
        values
    }
}

impl<M0, M1, M2, M3, M4, M5, M6, M7, P0: Plugins<M0>, P1: Plugins<M1>, P2: Plugins<M2>, P3: Plugins<M3>, P4: Plugins<M4>, P5: Plugins<M5>, P6: Plugins<M6>, P7: Plugins<M7>> sealed::PluginsSealed<(PluginsTupleMarker, M0, M1, M2, M3, M4, M5, M6, M7,)> for (P0, P1, P2, P3, P4, P5, P6, P7) {
}

impl<M0, M1, M2, M3, M4, M5, M6, M7, P0: Plugins<M0>, P1: Plugins<M1>, P2: Plugins<M2>, P3: Plugins<M3>, P4: Plugins<M4>, P5: Plugins<M5>, P6: Plugins<M6>, P7: Plugins<M7>> Plugins<(PluginsTupleMarker, M0, M1, M2, M3, M4, M5, M6, M7,)> for (P0, P1, P2, P3, P4, P5, P6, P7) {
    open spec fn plugin_count(&self) -> nat {
        self.0.plugin_count() + self.1.plugin_count() + self.2.plugin_count() + self.3.plugin_count() + self.4.plugin_count() + self.5.plugin_count() + self.6.plugin_count() + self.7.plugin_count()
    }

    open spec fn names_are(&self, ids: Seq<Seq<char>>) -> bool {
        &&& ids.len() == self.plugin_count()
        &&& self.0.names_are(ids.subrange(0, self.0.plugin_count() as int))
        &&& self.1.names_are(ids.subrange(self.0.plugin_count() as int, (self.0.plugin_count() + self.1.plugin_count()) as int))
        &&& self.2.names_are(ids.subrange((self.0.plugin_count() + self.1.plugin_count()) as int, (self.0.plugin_count() + self.1.plugin_count() + self.2.plugin_count()) as int))
        &&& self.3.names_are(ids.subrange((self.0.plugin_count() + self.1.plugin_count() + self.2.plugin_count()) as int, (self.0.plugin_count() + self.1.plugin_count() + self.2.plugin_count() + self.3.plugin_count()) as int))
        &&& self.4.names_are(ids.subrange((self.0.plugin_count() + self.1.plugin_count() + self.2.plugin_count() + self.3.plugin_count()) as int, (self.0.plugin_count() + self.1.plugin_count() + self.2.plugin_count() + self.3.plugin_count() + self.4.plugin_count()) as int))
        &&& self.5.names_are(ids.subrange((self.0.plugin_count() + self.1.plugin_count() + self.2.plugin_count() + self.3.plugin_count() + self.4.plugin_count()) as int, (self.0.plugin_count() + self.1.plugin_count() + self.2.plugin_count() + self.3.plugin_count() + self.4.plugin_count() + self.5.plugin_count()) as int))
        &&& self.6.names_are(ids.subrange((self.0.plugin_count() + self.1.plugin_count() + self.2.plugin_count() + self.3.plugin_count() + self.4.plugin_count() + self.5.plugin_count()) as int, (self.0.plugin_count() + self.1.plugin_count() + self.2.plugin_count() + self.3.plugin_count() + self.4.plugin_count() + self.5.plugin_count() + self.6.plugin_count()) as int))
        &&& self.7.names_are(ids.subrange((self.0.plugin_count() + self.1.plugin_count() + self.2.plugin_count() + self.3.plugin_count() + self.4.plugin_count() + self.5.plugin_count() + self.6.plugin_count()) as int, (self.0.plugin_count() + self.1.plugin_count() + self.2.plugin_count() + self.3.plugin_count() + self.4.plugin_count() + self.5.plugin_count() + self.6.plugin_count() + self.7.plugin_count()) as int))
    }

    fn plugin_type_ids(&self) -> (r: Vec<PluginTypeId>) {
        let mut values: Vec<PluginTypeId> = Vec::new();
        let mut ids0 = self.0.plugin_type_ids();
        let ghost w0 = type_id_views(ids0@);
        proof {
            lemma_views_append(values@, ids0@);
        }
        values.append(&mut ids0);
        let mut ids1 = self.1.plugin_type_ids();
        let ghost w1 = type_id_views(ids1@);
        proof {
            lemma_views_append(values@, ids1@);
        }
        values.append(&mut ids1);
        let mut ids2 = self.2.plugin_type_ids();
        let ghost w2 = type_id_views(ids2@);
        proof {
            lemma_views_append(values@, ids2@);
        }
        values.append(&mut ids2);
        let mut ids3 = self.3.plugin_type_ids();
        let ghost w3 = type_id_views(ids3@);
        proof {
            lemma_views_append(values@, ids3@);
        }
        values.append(&mut ids3);
        let mut ids4 = self.4.plugin_type_ids();
        let ghost w4 = type_id_views(ids4@);
        proof {
            lemma_views_append(values@, ids4@);
        }
        values.append(&mut ids4);
        let mut ids5 = self.5.plugin_type_ids();
        let ghost w5 = type_id_views(ids5@);
        proof {
            lemma_views_append(values@, ids5@);
        }
        values.append(&mut ids5);
        let mut ids6 = self.6.plugin_type_ids();
        let ghost w6 = type_id_views(ids6@);
        proof {
            lemma_views_append(values@, ids6@);
        }
        values.append(&mut ids6);
        let mut ids7 = self.7.plugin_type_ids();
        let ghost w7 = type_id_views(ids7@);
        proof {
            lemma_views_append(values@, ids7@);
        }
        values.append(&mut ids7);
        proof {
            assert(type_id_views(values@) =~= w0 + w1 + w2 + w3 + w4 + w5 + w6 + w7);
            assert(type_id_views(values@).subrange(0, w0.len() as int) =~= w0);
            assert(type_id_views(values@).subrange(w0.len() as int, (w0.len() + w1.len()) as int) =~= w1);
            assert(type_id_views(values@).subrange((w0.len() + w1.len()) as int, (w0.len() + w1.len() + w2.len()) as int) =~= w2);
            assert(type_id_views(values@).subrange((w0.len() + w1.len() + w2.len()) as int, (w0.len() + w1.len() + w2.len() + w3.len()) as int) =~= w3);
            assert(type_id_views(values@).subrange((w0.len() + w1.len() + w2.len() + w3.len()) as int, (w0.len() + w1.len() + w2.len() + w3.len() + w4.len()) as int) =~= w4);
            assert(type_id_views(values@).subrange((w0.len() + w1.len() + w2.len() + w3.len() + w4.len()) as int, (w0.len() + w1.len() + w2.len() + w3.len() + w4.len() + w5.len()) as int) =~= w5);
            assert(type_id_views(values@).subrange((w0.len() + w1.len() + w2.len() + w3.len() + w4.len() + w5.len()) as int, (w0.len() + w1.len() + w2.len() + w3.len() + w4.len() + w5.len() + w6.len()) as int) =~= w6);
            assert(type_id_views(values@).subrange((w0.len() + w1.len() + w2.len() + w3.len() + w4.len() + w5.len() + w6.len()) as int, (w0.len() + w1.len() + w2.len() + w3.len() + w4.len() + w5.len() + w6.len() + w7.len()) as int) =~= w7);
        }
        values
    }
}

impl<M0, M1, M2, M3, M4, M5, M6, M7, M8, P0: Plugins<M0>, P1: Plugins<M1>, P2: Plugins<M2>, P3: Plugins<M3>, P4: Plugins<M4>, P5: Plugins<M5>, P6: Plugins<M6>, P7: Plugins<M7>, P8: Plugins<M8>> sealed::PluginsSealed<(PluginsTupleMarker, M0, M1, M2, M3, M4, M5, M6, M7, M8,)> for (P0, P1, P2, P3, P4, P5, P6, P7, P8) {
}

impl<M0, M1, M2, M3, M4, M5, M6, M7, M8, P0: Plugins<M0>, P1: Plugins<M1>, P2: Plugins<M2>, P3: Plugins<M3>, P4: Plugins<M4>, P5: Plugins<M5>, P6: Plugins<M6>, P7: Plugins<M7>, P8: Plugins<M8>> Plugins<(PluginsTupleMarker, M0, M1, M2, M3, M4, M5, M6, M7, M8,)> for (P0, P1, P2, P3, P4, P5, P6, P7, P8) {
    open spec fn plugin_count(&self) -> nat {
        self.0.plugin_count() + self.1.plugin_count() + self.2.plugin_count() + self.3.plugin_count() + self.4.plugin_count() + self.5.plugin_count() + self.6.plugin_count() + self.7.plugin_count() + self.8.plugin_count()
    }

    open spec fn names_are(&self, ids: Seq<Seq<char>>) -> bool {
        &&& ids.len() == self.plugin_count()
        &&& self.0.names_are(ids.subrange(0, self.0.plugin_count() as int))
        &&& self.1.names_are(ids.subrange(self.0.plugin_count() as int, (self.0.plugin_count() + self.1.plugin_count()) as int))
        &&& self.2.names_are(ids.subrange((self.0.plugin_count() + self.1.plugin_count()) as int, (self.0.plugin_count() + self.1.plugin_count() + self.2.plugin_count()) as int))
        &&& self.3.names_are(ids.subrange((self.0.plugin_count() + self.1.plugin_count() + self.2.plugin_count()) as int, (self.0.plugin_count() + self.1.plugin_count() + self.2.plugin_count() + self.3.plugin_count()) as int))
        &&& self.4.names_are(ids.subrange((self.0.plugin_count() + self.1.plugin_count() + self.2.plugin_count() + self.3.plugin_count()) as int, (self.0.plugin_count() + self.1.plugin_count() + self.2.plugin_count() + self.3.plugin_count() + self.4.plugin_count()) as int))
        &&& self.5.names_are(ids.subrange((self.0.plugin_count() + self.1.plugin_count() + self.2.plugin_count() + self.3.plugin_count() + self.4.plugin_count()) as int, (self.0.plugin_count() + self.1.plugin_count() + self.2.plugin_count() + self.3.plugin_count() + self.4.plugin_count() + self.5.plugin_count()) as int))
        &&& self.6.names_are(ids.subrange((self.0.plugin_count() + self.1.plugin_count() + self.2.plugin_count() + self.3.plugin_count() + self.4.plugin_count() + self.5.plugin_count()) as int, (self.0.plugin_count() + self.1.plugin_count() + self.2.plugin_count() + self.3.plugin_count() + self.4.plugin_count() + self.5.plugin_count() + self.6.plugin_count()) as int))
        &&& self.7.names_are(ids.subrange((self.0.plugin_count() + self.1.plugin_count() + self.2.plugin_count() + self.3.plugin_count() + self.4.plugin_count() + self.5.plugin_count() + self.6.plugin_count()) as int, (self.0.plugin_count() + self.1.plugin_count() + self.2.plugin_count() + self.3.plugin_count() + self.4.plugin_count() + self.5.plugin_count() + self.6.plugin_count() + self.7.plugin_count()) as int))
        &&& self.8.names_are(ids.subrange((self.0.plugin_count() + self.1.plugin_count() + self.2.plugin_count() + self.3.plugin_count() + self.4.plugin_count() + self.5.plugin_count() + self.6.plugin_count() + self.7.plugin_count()) as int, (self.0.plugin_count() + self.1.plugin_count() + self.2.plugin_count() + self.3.plugin_count() + self.4.plugin_count() + self.5.plugin_count() + self.6.plugin_count() + self.7.plugin_count() + self.8.plugin_count()) as int))
    }

    fn plugin_type_ids(&self) -> (r: Vec<PluginTypeId>) {
        let mut values: Vec<PluginTypeId> = Vec::new();
        let mut ids0 = self.0.plugin_type_ids();
        let ghost w0 = type_id_views(ids0@);
        proof {
            lemma_views_append(values@, ids0@);
        }
        values.append(&mut ids0);
        let mut ids1 = self.1.plugin_type_ids();
        let ghost w1 = type_id_views(ids1@);
        proof {
            lemma_views_append(values@, ids1@);
        }
        values.append(&mut ids1);
        let mut ids2 = self.2.plugin_type_ids();
        let ghost w2 = type_id_views(ids2@);
        proof {
            lemma_views_append(values@, ids2@);
        }
        values.append(&mut ids2);
        let mut ids3 = self.3.plugin_type_ids();
        let ghost w3 = type_id_views(ids3@);
        proof {
            lemma_views_append(values@, ids3@);
        }
        values.append(&mut ids3);
        let mut ids4 = self.4.plugin_type_ids();
        let ghost w4 = type_id_views(ids4@);
        proof {
            lemma_views_append(values@, ids4@);
        }
        values.append(&mut ids4);
        let mut ids5 = self.5.plugin_type_ids();
        let ghost w5 = type_id_views(ids5@);
        proof {
            lemma_views_append(values@, ids5@);
        }
        values.append(&mut ids5);
        let mut ids6 = self.6.plugin_type_ids();
        let ghost w6 = type_id_views(ids6@);
        proof {
            lemma_views_append(values@, ids6@);
        }
        values.append(&mut ids6);
        let mut ids7 = self.7.plugin_type_ids();
        let ghost w7 = type_id_views(ids7@);
        proof {
            lemma_views_append(values@, ids7@);
        }
        values.append(&mut ids7);
        let mut ids8 = self.8.plugin_type_ids();
        let ghost w8 = type_id_views(ids8@);
        proof {
            lemma_views_append(values@, ids8@);
        }
        values.append(&mut ids8);
        proof {
            assert(type_id_views(values@) =~= w0 + w1 + w2 + w3 + w4 + w5 + w6 + w7 + w8);
            assert(type_id_views(values@).subrange(0, w0.len() as int) =~= w0);
            assert(type_id_views(values@).subrange(w0.len() as int, (w0.len() + w1.len()) as int) =~= w1);
            assert(type_id_views(values@).subrange((w0.len() + w1.len()) as int, (w0.len() + w1.len() + w2.len()) as int) =~= w2);
            assert(type_id_views(values@).subrange((w0.len() + w1.len() + w2.len()) as int, (w0.len() + w1.len() + w2.len() + w3.len()) as int) =~= w3);
            assert(type_id_views(values@).subrange((w0.len() + w1.len() + w2.len() + w3.len()) as int, (w0.len() + w1.len() + w2.len() + w3.len() + w4.len()) as int) =~= w4);
            assert(type_id_views(values@).subrange((w0.len() + w1.len() + w2.len() + w3.len() + w4.len()) as int, (w0.len() + w1.len() + w2.len() + w3.len() + w4.len() + w5.len()) as int) =~= w5);
            assert(type_id_views(values@).subrange((w0.len() + w1.len() + w2.len() + w3.len() + w4.len() + w5.len()) as int, (w0.len() + w1.len() + w2.len() + w3.len() + w4.len() + w5.len() + w6.len()) as int) =~= w6);
            assert(type_id_views(values@).subrange((w0.len() + w1.len() + w2.len() + w3.len() + w4.len() + w5.len() + w6.len()) as int, (w0.len() + w1.len() + w2.len() + w3.len() + w4.len() + w5.len() + w6.len() + w7.len()) as int) =~= w7);
            assert(type_id_views(values@).subrange((w0.len() + w1.len() + w2.len() + w3.len() + w4.len() + w5.len() + w6.len() + w7.len()) as int, (w0.len() + w1.len() + w2.len() + w3.len() + w4.len() + w5.len() + w6.len() + w7.len() + w8.len()) as int) =~= w8);
        }
        values
    }
}

impl<M0, M1, M2, M3, M4, M5, M6, M7, M8, M9, P0: Plugins<M0>, P1: Plugins<M1>, P2: Plugins<M2>, P3: Plugins<M3>, P4: Plugins<M4>, P5: Plugins<M5>, P6: Plugins<M6>, P7: Plugins<M7>, P8: Plugins<M8>, P9: Plugins<M9>> sealed::PluginsSealed<(PluginsTupleMarker, M0, M1, M2, M3, M4, M5, M6, M7, M8, M9,)> for (P0, P1, P2, P3, P4, P5, P6, P7, P8, P9) {
}

impl<M0, M1, M2, M3, M4, M5, M6, M7, M8, M9, P0: Plugins<M0>, P1: Plugins<M1>, P2: Plugins<M2>, P3: Plugins<M3>, P4: Plugins<M4>, P5: Plugins<M5>, P6: Plugins<M6>, P7: Plugins<M7>, P8: Plugins<M8>, P9: Plugins<M9>> Plugins<(PluginsTupleMarker, M0, M1, M2, M3, M4, M5, M6, M7, M8, M9,)> for (P0, P1, P2, P3, P4, P5, P6, P7, P8, P9) {
    open spec fn plugin_count(&self) -> nat {
        self.0.plugin_count() + self.1.plugin_count() + self.2.plugin_count() + self.3.plugin_count() + self.4.plugin_count() + self.5.plugin_count() + self.6.plugin_count() + self.7.plugin_count() + self.8.plugin_count() + self.9.plugin_count()
    }

    open spec fn names_are(&self, ids: Seq<Seq<char>>) -> bool {
        &&& ids.len() == self.plugin_count()
        &&& self.0.names_are(ids.subrange(0, self.0.plugin_count() as int))
        &&& self.1.names_are(ids.subrange(self.0.plugin_count() as int, (self.0.plugin_count() + self.1.plugin_count()) as int))
        &&& self.2.names_are(ids.subrange((self.0.plugin_count() + self.1.plugin_count()) as int, (self.0.plugin_count() + self.1.plugin_count() + self.2.plugin_count()) as int))
        &&& self.3.names_are(ids.subrange((self.0.plugin_count() + self.1.plugin_count() + self.2.plugin_count()) as int, (self.0.plugin_count() + self.1.plugin_count() + self.2.plugin_count() + self.3.plugin_count()) as int))
        &&& self.4.names_are(ids.subrange((self.0.plugin_count() + self.1.plugin_count() + self.2.plugin_count() + self.3.plugin_count()) as int, (self.0.plugin_count() + self.1.plugin_count() + self.2.plugin_count() + self.3.plugin_count() + self.4.plugin_count()) as int))
        &&& self.5.names_are(ids.subrange((self.0.plugin_count() + self.1.plugin_count() + self.2.plugin_count() + self.3.plugin_count() + self.4.plugin_count()) as int, (self.0.plugin_count() + self.1.plugin_count() + self.2.plugin_count() + self.3.plugin_count() + self.4.plugin_count() + self.5.plugin_count()) as int))
        &&& self.6.names_are(ids.subrange((self.0.plugin_count() + self.1.plugin_count() + self.2.plugin_count() + self.3.plugin_count() + self.4.plugin_count() + self.5.plugin_count()) as int, (self.0.plugin_count() + self.1.plugin_count() + self.2.plugin_count() + self.3.plugin_count() + self.4.plugin_count() + self.5.plugin_count() + self.6.plugin_count()) as int))
        &&& self.7.names_are(ids.subrange((self.0.plugin_count() + self.1.plugin_count() + self.2.plugin_count() + self.3.plugin_count() + self.4.plugin_count() + self.5.plugin_count() + self.6.plugin_count()) as int, (self.0.plugin_count() + self.1.plugin_count() + self.2.plugin_count() + self.3.plugin_count() + self.4.plugin_count() + self.5.plugin_count() + self.6.plugin_count() + self.7.plugin_count()) as int))
        &&& self.8.names_are(ids.subrange((self.0.plugin_count() + self.1.plugin_count() + self.2.plugin_count() + self.3.plugin_count() + self.4.plugin_count() + self.5.plugin_count() + self.6.plugin_count() + self.7.plugin_count()) as int, (self.0.plugin_count() + self.1.plugin_count() + self.2.plugin_count() + self.3.plugin_count() + self.4.plugin_count() + self.5.plugin_count() + self.6.plugin_count() + self.7.plugin_count() + self.8.plugin_count()) as int))
        &&& self.9.names_are(ids.subrange((self.0.plugin_count() + self.1.plugin_count() + self.2.plugin_count() + self.3.plugin_count() + self.4.plugin_count() + self.5.plugin_count() + self.6.plugin_count() + self.7.plugin_count() + self.8.plugin_count()) as int, (self.0.plugin_count() + self.1.plugin_count() + self.2.plugin_count() + self.3.plugin_count() + self.4.plugin_count() + self.5.plugin_count() + self.6.plugin_count() + self.7.plugin_count() + self.8.plugin_count() + self.9.plugin_count()) as int))
    }

    #[verifier::rlimit(80)]
    fn plugin_type_ids(&self) -> (r: Vec<PluginTypeId>) {
        let mut values: Vec<PluginTypeId> = Vec::new();
        let mut ids0 = self.0.plugin_type_ids();
        let ghost w0 = type_id_views(ids0@);
        proof {
            lemma_views_append(values@, ids0@);
        }
        values.append(&mut ids0);
        let mut ids1 = self.1.plugin_type_ids();
        let ghost w1 = type_id_views(ids1@);
        proof {
            lemma_views_append(values@, ids1@);
        }
        values.append(&mut ids1);
        let mut ids2 = self.2.plugin_type_ids();
        let ghost w2 = type_id_views(ids2@);
        proof {
            lemma_views_append(values@, ids2@);
        }
        values.append(&mut ids2);
        let mut ids3 = self.3.plugin_type_ids();
        let ghost w3 = type_id_views(ids3@);
        proof {
            lemma_views_append(values@, ids3@);
        }
        values.append(&mut ids3);
        let mut ids4 = self.4.plugin_type_ids();
        let ghost w4 = type_id_views(ids4@);
        proof {
            lemma_views_append(values@, ids4@);
        }
        values.append(&mut ids4);
        let mut ids5 = self.5.plugin_type_ids();
        let ghost w5 = type_id_views(ids5@);
        proof {
            lemma_views_append(values@, ids5@);
        }
        values.append(&mut ids5);
        let mut ids6 = self.6.plugin_type_ids();
        let ghost w6 = type_id_views(ids6@);
        proof {
            lemma_views_append(values@, ids6@);
        }
        values.append(&mut ids6);
        let mut ids7 = self.7.plugin_type_ids();
        let ghost w7 = type_id_views(ids7@);
        proof {
            lemma_views_append(values@, ids7@);
        }
        values.append(&mut ids7);
        let mut ids8 = self.8.plugin_type_ids();
        let ghost w8 = type_id_views(ids8@);
        proof {
            lemma_views_append(values@, ids8@);
        }
        values.append(&mut ids8);
        let mut ids9 = self.9.plugin_type_ids();
        let ghost w9 = type_id_views(ids9@);
        proof {
            lemma_views_append(values@, ids9@);
        }
        values.append(&mut ids9);
        proof {
            assert(type_id_views(values@) =~= w0 + w1 + w2 + w3 + w4 + w5 + w6 + w7 + w8 + w9);
            assert(type_id_views(values@).subrange(0, w0.len() as int) =~= w0);
            assert(type_id_views(values@).subrange(w0.len() as int, (w0.len() + w1.len()) as int) =~= w1);
            assert(type_id_views(values@).subrange((w0.len() + w1.len()) as int, (w0.len() + w1.len() + w2.len()) as int) =~= w2);
            assert(type_id_views(values@).subrange((w0.len() + w1.len() + w2.len()) as int, (w0.len() + w1.len() + w2.len() + w3.len()) as int) =~= w3);
            assert(type_id_views(values@).subrange((w0.len() + w1.len() + w2.len() + w3.len()) as int, (w0.len() + w1.len() + w2.len() + w3.len() + w4.len()) as int) =~= w4);
            assert(type_id_views(values@).subrange((w0.len() + w1.len() + w2.len() + w3.len() + w4.len()) as int, (w0.len() + w1.len() + w2.len() + w3.len() + w4.len() + w5.len()) as int) =~= w5);
            assert(type_id_views(values@).subrange((w0.len() + w1.len() + w2.len() + w3.len() + w4.len() + w5.len()) as int, (w0.len() + w1.len() + w2.len() + w3.len() + w4.len() + w5.len() + w6.len()) as int) =~= w6);
            assert(type_id_views(values@).subrange((w0.len() + w1.len() + w2.len() + w3.len() + w4.len() + w5.len() + w6.len()) as int, (w0.len() + w1.len() + w2.len() + w3.len() + w4.len() + w5.len() + w6.len() + w7.len()) as int) =~= w7);
            assert(type_id_views(values@).subrange((w0.len() + w1.len() + w2.len() + w3.len() + w4.len() + w5.len() + w6.len() + w7.len()) as int, (w0.len() + w1.len() + w2.len() + w3.len() + w4.len() + w5.len() + w6.len() + w7.len() + w8.len()) as int) =~= w8);
            assert(type_id_views(values@).subrange((w0.len() + w1.len() + w2.len() + w3.len() + w4.len() + w5.len() + w6.len() + w7.len() + w8.len()) as int, (w0.len() + w1.len() + w2.len() + w3.len() + w4.len() + w5.len() + w6.len() + w7.len() + w8.len() + w9.len()) as int) =~= w9);
        }
        values
    }
}

impl<M0, M1, M2, M3, M4, M5, M6, M7, M8, M9, M10, P0: Plugins<M0>, P1: Plugins<M1>, P2: Plugins<M2>, P3: Plugins<M3>, P4: Plugins<M4>, P5: Plugins<M5>, P6: Plugins<M6>, P7: Plugins<M7>, P8: Plugins<M8>, P9: Plugins<M9>, P10: Plugins<M10>> sealed::PluginsSealed<(PluginsTupleMarker, M0, M1, M2, M3, M4, M5, M6, M7, M8, M9, M10,)> for (P0, P1, P2, P3, P4, P5, P6, P7, P8, P9, P10) {
}

impl<M0, M1, M2, M3, M4, M5, M6, M7, M8, M9, M10, P0: Plugins<M0>, P1: Plugins<M1>, P2: Plugins<M2>, P3: Plugins<M3>, P4: Plugins<M4>, P5: Plugins<M5>, P6: Plugins<M6>, P7: Plugins<M7>, P8: Plugins<M8>, P9: Plugins<M9>, P10: Plugins<M10>> Plugins<(PluginsTupleMarker, M0, M1, M2, M3, M4, M5, M6, M7, M8, M9, M10,)> for (P0, P1, P2, P3, P4, P5, P6, P7, P8, P9, P10) {
    open spec fn plugin_count(&self) -> nat {
        self.0.plugin_count() + self.1.plugin_count() + self.2.plugin_count() + self.3.plugin_count() + self.4.plugin_count() + self.5.plugin_count() + self.6.plugin_count() + self.7.plugin_count() + self.8.plugin_count() + self.9.plugin_count() + self.10.plugin_count()
    }

    open spec fn names_are(&self, ids: Seq<Seq<char>>) -> bool {
        &&& ids.len() == self.plugin_count()
        &&& self.0.names_are(ids.subrange(0, self.0.plugin_count() as int))
        &&& self.1.names_are(ids.subrange(self.0.plugin_count() as int, (self.0.plugin_count() + self.1.plugin_count()) as int))
        &&& self.2.names_are(ids.subrange((self.0.plugin_count() + self.1.plugin_count()) as int, (self.0.plugin_count() + self.1.plugin_count() + self.2.plugin_count()) as int))
        &&& self.3.names_are(ids.subrange((self.0.plugin_count() + self.1.plugin_count() + self.2.plugin_count()) as int, (self.0.plugin_count() + self.1.plugin_count() + self.2.plugin_count() + self.3.plugin_count()) as int))
        &&& self.4.names_are(ids.subrange((self.0.plugin_count() + self.1.plugin_count() + self.2.plugin_count() + self.3.plugin_count()) as int, (self.0.plugin_count() + self.1.plugin_count() + self.2.plugin_count() + self.3.plugin_count() + self.4.plugin_count()) as int))
        &&& self.5.names_are(ids.subrange((self.0.plugin_count() + self.1.plugin_count() + self.2.plugin_count() + self.3.plugin_count() + self.4.plugin_count()) as int, (self.0.plugin_count() + self.1.plugin_count() + self.2.plugin_count() + self.3.plugin_count() + self.4.plugin_count() + self.5.plugin_count()) as int))
        &&& self.6.names_are(ids.subrange((self.0.plugin_count() + self.1.plugin_count() + self.2.plugin_count() + self.3.plugin_count() + self.4.plugin_count() + self.5.plugin_count()) as int, (self.0.plugin_count() + self.1.plugin_count() + self.2.plugin_count() + self.3.plugin_count() + self.4.plugin_count() + self.5.plugin_count() + self.6.plugin_count()) as int))
        &&& self.7.names_are(ids.subrange((self.0.plugin_count() + self.1.plugin_count() + self.2.plugin_count() + self.3.plugin_count() + self.4.plugin_count() + self.5.plugin_count() + self.6.plugin_count()) as int, (self.0.plugin_count() + self.1.plugin_count() + self.2.plugin_count() + self.3.plugin_count() + self.4.plugin_count() + self.5.plugin_count() + self.6.plugin_count() + self.7.plugin_count()) as int))
        &&& self.8.names_are(ids.subrange((self.0.plugin_count() + self.1.plugin_count() + self.2.plugin_count() + self.3.plugin_count() + self.4.plugin_count() + self.5.plugin_count() + self.6.plugin_count() + self.7.plugin_count()) as int, (self.0.plugin_count() + self.1.plugin_count() + self.2.plugin_count() + self.3.plugin_count() + self.4.plugin_count() + self.5.plugin_count() + self.6.plugin_count() + self.7.plugin_count() + self.8.plugin_count()) as int))
        &&& self.9.names_are(ids.subrange((self.0.plugin_count() + self.1.plugin_count() + self.2.plugin_count() + self.3.plugin_count() + self.4.plugin_count() + self.5.plugin_count() + self.6.plugin_count() + self.7.plugin_count() + self.8.plugin_count()) as int, (self.0.plugin_count() + self.1.plugin_count() + self.2.plugin_count() + self.3.plugin_count() + self.4.plugin_count() + self.5.plugin_count() + self.6.plugin_count() + self.7.plugin_count() + self.8.plugin_count() + self.9.plugin_count()) as int))
        &&& self.10.names_are(ids.subrange((self.0.plugin_count() + self.1.plugin_count() + self.2.plugin_count() + self.3.plugin_count() + self.4.plugin_count() + self.5.plugin_count() + self.6.plugin_count() + self.7.plugin_count() + self.8.plugin_count() + self.9.plugin_count()) as int, (self.0.plugin_count() + self.1.plugin_count() + self.2.plugin_count() + self.3.plugin_count() + self.4.plugin_count() + self.5.plugin_count() + self.6.plugin_count() + self.7.plugin_count() + self.8.plugin_count() + self.9.plugin_count() + self.10.plugin_count()) as int))
    }

    #[verifier::rlimit(80)]
    fn plugin_type_ids(&self) -> (r: Vec<PluginTypeId>) {
        let mut values: Vec<PluginTypeId> = Vec::new();
        let mut ids0 = self.0.plugin_type_ids();
        let ghost w0 = type_id_views(ids0@);
        proof {
            lemma_views_append(values@, ids0@);
        }
        values.append(&mut ids0);
        let mut ids1 = self.1.plugin_type_ids();
        let ghost w1 = type_id_views(ids1@);
        proof {
            lemma_views_append(values@, ids1@);
        }
        values.append(&mut ids1);
        let mut ids2 = self.2.plugin_type_ids();
        let ghost w2 = type_id_views(ids2@);
        proof {
            lemma_views_append(values@, ids2@);
        }
        values.append(&mut ids2);
        let mut ids3 = self.3.plugin_type_ids();
        let ghost w3 = type_id_views(ids3@);
        proof {
            lemma_views_append(values@, ids3@);
        }
        values.append(&mut ids3);
        let mut ids4 = self.4.plugin_type_ids();
        let ghost w4 = type_id_views(ids4@);
        proof {
            lemma_views_append(values@, ids4@);
        }
        values.append(&mut ids4);
        let mut ids5 = self.5.plugin_type_ids();
        let ghost w5 = type_id_views(ids5@);
        proof {
            lemma_views_append(values@, ids5@);
        }
        values.append(&mut ids5);
        let mut ids6 = self.6.plugin_type_ids();
        let ghost w6 = type_id_views(ids6@);
        proof {
            lemma_views_append(values@, ids6@);
        }
        values.append(&mut ids6);
        let mut ids7 = self.7.plugin_type_ids();
        let ghost w7 = type_id_views(ids7@);
        proof {
            lemma_views_append(values@, ids7@);
        }
        values.append(&mut ids7);
        let mut ids8 = self.8.plugin_type_ids();
        let ghost w8 = type_id_views(ids8@);
        proof {
            lemma_views_append(values@, ids8@);
        }
        values.append(&mut ids8);
        let mut ids9 = self.9.plugin_type_ids();
        let ghost w9 = type_id_views(ids9@);
        proof {
            lemma_views_append(values@, ids9@);
        }
        values.append(&mut ids9);
        let mut ids10 = self.10.plugin_type_ids();
        let ghost w10 = type_id_views(ids10@);
        proof {
            lemma_views_append(values@, ids10@);
        }
        values.append(&mut ids10);
        proof {
            assert(type_id_views(values@) =~= w0 + w1 + w2 + w3 + w4 + w5 + w6 + w7 + w8 + w9 + w10);
            assert(type_id_views(values@).subrange(0, w0.len() as int) =~= w0);
            assert(type_id_views(values@).subrange(w0.len() as int, (w0.len() + w1.len()) as int) =~= w1);
            assert(type_id_views(values@).subrange((w0.len() + w1.len()) as int, (w0.len() + w1.len() + w2.len()) as int) =~= w2);
            assert(type_id_views(values@).subrange((w0.len() + w1.len() + w2.len()) as int, (w0.len() + w1.len() + w2.len() + w3.len()) as int) =~= w3);
            assert(type_id_views(values@).subrange((w0.len() + w1.len() + w2.len() + w3.len()) as int, (w0.len() + w1.len() + w2.len() + w3.len() + w4.len()) as int) =~= w4);
            assert(type_id_views(values@).subrange((w0.len() + w1.len() + w2.len() + w3.len() + w4.len()) as int, (w0.len() + w1.len() + w2.len() + w3.len() + w4.len() + w5.len()) as int) =~= w5);
            assert(type_id_views(values@).subrange((w0.len() + w1.len() + w2.len() + w3.len() + w4.len() + w5.len()) as int, (w0.len() + w1.len() + w2.len() + w3.len() + w4.len() + w5.len() + w6.len()) as int) =~= w6);
            assert(type_id_views(values@).subrange((w0.len() + w1.len() + w2.len() + w3.len() + w4.len() + w5.len() + w6.len()) as int, (w0.len() + w1.len() + w2.len() + w3.len() + w4.len() + w5.len() + w6.len() + w7.len()) as int) =~= w7);
            assert(type_id_views(values@).subrange((w0.len() + w1.len() + w2.len() + w3.len() + w4.len() + w5.len() + w6.len() + w7.len()) as int, (w0.len() + w1.len() + w2.len() + w3.len() + w4.len() + w5.len() + w6.len() + w7.len() + w8.len()) as int) =~= w8);
            assert(type_id_views(values@).subrange((w0.len() + w1.len() + w2.len() + w3.len() + w4.len() + w5.len() + w6.len() + w7.len() + w8.len()) as int, (w0.len() + w1.len() + w2.len() + w3.len() + w4.len() + w5.len() + w6.len() + w7.len() + w8.len() + w9.len()) as int) =~= w9);
            assert(type_id_views(values@).subrange((w0.len() + w1.len() + w2.len() + w3.len() + w4.len() + w5.len() + w6.len() + w7.len() + w8.len() + w9.len()) as int, (w0.len() + w1.len() + w2.len() + w3.len() + w4.len() + w5.len() + w6.len() + w7.len() + w8.len() + w9.len() + w10.len()) as int) =~= w10);
        }
        values
    }
}

impl<M0, M1, M2, M3, M4, M5, M6, M7, M8, M9, M10, M11, P0: Plugins<M0>, P1: Plugins<M1>, P2: Plugins<M2>, P3: Plugins<M3>, P4: Plugins<M4>, P5: Plugins<M5>, P6: Plugins<M6>, P7: Plugins<M7>, P8: Plugins<M8>, P9: Plugins<M9>, P10: Plugins<M10>, P11: Plugins<M11>> sealed::PluginsSealed<(PluginsTupleMarker, M0, M1, M2, M3, M4, M5, M6, M7, M8, M9, M10, M11,)> for (P0, P1, P2, P3, P4, P5, P6, P7, P8, P9, P10, P11) {
}

impl<M0, M1, M2, M3, M4, M5, M6, M7, M8, M9, M10, M11, P0: Plugins<M0>, P1: Plugins<M1>, P2: Plugins<M2>, P3: Plugins<M3>, P4: Plugins<M4>, P5: Plugins<M5>, P6: Plugins<M6>, P7: Plugins<M7>, P8: Plugins<M8>, P9: Plugins<M9>, P10: Plugins<M10>, P11: Plugins<M11>> Plugins<(PluginsTupleMarker, M0, M1, M2, M3, M4, M5, M6, M7, M8, M9, M10, M11,)> for (P0, P1, P2, P3, P4, P5, P6, P7, P8, P9, P10, P11) {
    open spec fn plugin_count(&self) -> nat {
        self.0.plugin_count() + self.1.plugin_count() + self.2.plugin_count() + self.3.plugin_count() + self.4.plugin_count() + self.5.plugin_count() + self.6.plugin_count() + self.7.plugin_count() + self.8.plugin_count() + self.9.plugin_count() + self.10.plugin_count() + self.11.plugin_count()
    }

    open spec fn names_are(&self, ids: Seq<Seq<char>>) -> bool {
        &&& ids.len() == self.plugin_count()
        &&& self.0.names_are(ids.subrange(0, self.0.plugin_count() as int))
        &&& self.1.names_are(ids.subrange(self.0.plugin_count() as int, (self.0.plugin_count() + self.1.plugin_count()) as int))
        &&& self.2.names_are(ids.subrange((self.0.plugin_count() + self.1.plugin_count()) as int, (self.0.plugin_count() + self.1.plugin_count() + self.2.plugin_count()) as int))
        &&& self.3.names_are(ids.subrange((self.0.plugin_count() + self.1.plugin_count() + self.2.plugin_count()) as int, (self.0.plugin_count() + self.1.plugin_count() + self.2.plugin_count() + self.3.plugin_count()) as int))
        &&& self.4.names_are(ids.subrange((self.0.plugin_count() + self.1.plugin_count() + self.2.plugin_count() + self.3.plugin_count()) as int, (self.0.plugin_count() + self.1.plugin_count() + self.2.plugin_count() + self.3.plugin_count() + self.4.plugin_count()) as int))
        &&& self.5.names_are(ids.subrange((self.0.plugin_count() + self.1.plugin_count() + self.2.plugin_count() + self.3.plugin_count() + self.4.plugin_count()) as int, (self.0.plugin_count() + self.1.plugin_count() + self.2.plugin_count() + self.3.plugin_count() + self.4.plugin_count() + self.5.plugin_count()) as int))
        &&& self.6.names_are(ids.subrange((self.0.plugin_count() + self.1.plugin_count() + self.2.plugin_count() + self.3.plugin_count() + self.4.plugin_count() + self.5.plugin_count()) as int, (self.0.plugin_count() + self.1.plugin_count() + self.2.plugin_count() + self.3.plugin_count() + self.4.plugin_count() + self.5.plugin_count() + self.6.plugin_count()) as int))
        &&& self.7.names_are(ids.subrange((self.0.plugin_count() + self.1.plugin_count() + self.2.plugin_count() + self.3.plugin_count() + self.4.plugin_count() + self.5.plugin_count() + self.6.plugin_count()) as int, (self.0.plugin_count() + self.1.plugin_count() + self.2.plugin_count() + self.3.plugin_count() + self.4.plugin_count() + self.5.plugin_count() + self.6.plugin_count() + self.7.plugin_count()) as int))
        &&& self.8.names_are(ids.subrange((self.0.plugin_count() + self.1.plugin_count() + self.2.plugin_count() + self.3.plugin_count() + self.4.plugin_count() + self.5.plugin_count() + self.6.plugin_count() + self.7.plugin_count()) as int, (self.0.plugin_count() + self.1.plugin_count() + self.2.plugin_count() + self.3.plugin_count() + self.4.plugin_count() + self.5.plugin_count() + self.6.plugin_count() + self.7.plugin_count() + self.8.plugin_count()) as int))
        &&& self.9.names_are(ids.subrange((self.0.plugin_count() + self.1.plugin_count() + self.2.plugin_count() + self.3.plugin_count() + self.4.plugin_count() + self.5.plugin_count() + self.6.plugin_count() + self.7.plugin_count() + self.8.plugin_count()) as int, (self.0.plugin_count() + self.1.plugin_count() + self.2.plugin_count() + self.3.plugin_count() + self.4.plugin_count() + self.5.plugin_count() + self.6.plugin_count() + self.7.plugin_count() + self.8.plugin_count() + self.9.plugin_count()) as int))
        &&& self.10.names_are(ids.subrange((self.0.plugin_count() + self.1.plugin_count() + self.2.plugin_count() + self.3.plugin_count() + self.4.plugin_count() + self.5.plugin_count() + self.6.plugin_count() + self.7.plugin_count() + self.8.plugin_count() + self.9.plugin_count()) as int, (self.0.plugin_count() + self.1.plugin_count() + self.2.plugin_count() + self.3.plugin_count() + self.4.plugin_count() + self.5.plugin_count() + self.6.plugin_count() + self.7.plugin_count() + self.8.plugin_count() + self.9.plugin_count() + self.10.plugin_count()) as int))
        &&& self.11.names_are(ids.subrange((self.0.plugin_count() + self.1.plugin_count() + self.2.plugin_count() + self.3.plugin_count() + self.4.plugin_count() + self.5.plugin_count() + self.6.plugin_count() + self.7.plugin_count() + self.8.plugin_count() + self.9.plugin_count() + self.10.plugin_count()) as int, (self.0.plugin_count() + self.1.plugin_count() + self.2.plugin_count() + self.3.plugin_count() + self.4.plugin_count() + self.5.plugin_count() + self.6.plugin_count() + self.7.plugin_count() + self.8.plugin_count() + self.9.plugin_count() + self.10.plugin_count() + self.11.plugin_count()) as int))
    }

    #[verifier::rlimit(80)]
    fn plugin_type_ids(&self) -> (r: Vec<PluginTypeId>) {
        let mut values: Vec<PluginTypeId> = Vec::new();
        let mut ids0 = self.0.plugin_type_ids();
        let ghost w0 = type_id_views(ids0@);
        proof {
            lemma_views_append(values@, ids0@);
        }
        values.append(&mut ids0);
        let mut ids1 = self.1.plugin_type_ids();
        let ghost w1 = type_id_views(ids1@);
        proof {
            lemma_views_append(values@, ids1@);
        }
        values.append(&mut ids1);
        let mut ids2 = self.2.plugin_type_ids();
        let ghost w2 = type_id_views(ids2@);
        proof {
            lemma_views_append(values@, ids2@);
        }
        values.append(&mut ids2);
        let mut ids3 = self.3.plugin_type_ids();
        let ghost w3 = type_id_views(ids3@);
        proof {
            lemma_views_append(values@, ids3@);
        }
        values.append(&mut ids3);
        let mut ids4 = self.4.plugin_type_ids();
        let ghost w4 = type_id_views(ids4@);
        proof {
            lemma_views_append(values@, ids4@);
        }
        values.append(&mut ids4);
        let mut ids5 = self.5.plugin_type_ids();
        let ghost w5 = type_id_views(ids5@);
        proof {
            lemma_views_append(values@, ids5@);
        }
        values.append(&mut ids5);
        let mut ids6 = self.6.plugin_type_ids();
        let ghost w6 = type_id_views(ids6@);
        proof {
            lemma_views_append(values@, ids6@);
        }
        values.append(&mut ids6);
        let mut ids7 = self.7.plugin_type_ids();
        let ghost w7 = type_id_views(ids7@);
        proof {
            lemma_views_append(values@, ids7@);
        }
        values.append(&mut ids7);
        let mut ids8 = self.8.plugin_type_ids();
        let ghost w8 = type_id_views(ids8@);
        proof {
            lemma_views_append(values@, ids8@);
        }
        values.append(&mut ids8);
        let mut ids9 = self.9.plugin_type_ids();
        let ghost w9 = type_id_views(ids9@);
        proof {
            lemma_views_append(values@, ids9@);
        }
        values.append(&mut ids9);
        let mut ids10 = self.10.plugin_type_ids();
        let ghost w10 = type_id_views(ids10@);
        proof {
            lemma_views_append(values@, ids10@);
        }
        values.append(&mut ids10);
        let mut ids11 = self.11.plugin_type_ids();
        let ghost w11 = type_id_views(ids11@);
        proof {
            lemma_views_append(values@, ids11@);
        }
        values.append(&mut ids11);
        proof {
            assert(type_id_views(values@) =~= w0 + w1 + w2 + w3 + w4 + w5 + w6 + w7 + w8 + w9 + w10 + w11);
            assert(type_id_views(values@).subrange(0, w0.len() as int) =~= w0);
            assert(type_id_views(values@).subrange(w0.len() as int, (w0.len() + w1.len()) as int) =~= w1);
            assert(type_id_views(values@).subrange((w0.len() + w1.len()) as int, (w0.len() + w1.len() + w2.len()) as int) =~= w2);
            assert(type_id_views(values@).subrange((w0.len() + w1.len() + w2.len()) as int, (w0.len() + w1.len() + w2.len() + w3.len()) as int) =~= w3);
            assert(type_id_views(values@).subrange((w0.len() + w1.len() + w2.len() + w3.len()) as int, (w0.len() + w1.len() + w2.len() + w3.len() + w4.len()) as int) =~= w4);
            assert(type_id_views(values@).subrange((w0.len() + w1.len() + w2.len() + w3.len() + w4.len()) as int, (w0.len() + w1.len() + w2.len() + w3.len() + w4.len() + w5.len()) as int) =~= w5);
            assert(type_id_views(values@).subrange((w0.len() + w1.len() + w2.len() + w3.len() + w4.len() + w5.len()) as int, (w0.len() + w1.len() + w2.len() + w3.len() + w4.len() + w5.len() + w6.len()) as int) =~= w6);
            assert(type_id_views(values@).subrange((w0.len() + w1.len() + w2.len() + w3.len() + w4.len() + w5.len() + w6.len()) as int, (w0.len() + w1.len() + w2.len() + w3.len() + w4.len() + w5.len() + w6.len() + w7.len()) as int) =~= w7);
            assert(type_id_views(values@).subrange((w0.len() + w1.len() + w2.len() + w3.len() + w4.len() + w5.len() + w6.len() + w7.len()) as int, (w0.len() + w1.len() + w2.len() + w3.len() + w4.len() + w5.len() + w6.len() + w7.len() + w8.len()) as int) =~= w8);
            assert(type_id_views(values@).subrange((w0.len() + w1.len() + w2.len() + w3.len() + w4.len() + w5.len() + w6.len() + w7.len() + w8.len()) as int, (w0.len() + w1.len() + w2.len() + w3.len() + w4.len() + w5.len() + w6.len() + w7.len() + w8.len() + w9.len()) as int) =~= w9);
            assert(type_id_views(values@).subrange((w0.len() + w1.len() + w2.len() + w3.len() + w4.len() + w5.len() + w6.len() + w7.len() + w8.len() + w9.len()) as int, (w0.len() + w1.len() + w2.len() + w3.len() + w4.len() + w5.len() + w6.len() + w7.len() + w8.len() + w9.len() + w10.len()) as int) =~= w10);
            assert(type_id_views(values@).subrange((w0.len() + w1.len() + w2.len() + w3.len() + w4.len() + w5.len() + w6.len() + w7.len() + w8.len() + w9.len() + w10.len()) as int, (w0.len() + w1.len() + w2.len() + w3.len() + w4.len() + w5.len() + w6.len() + w7.len() + w8.len() + w9.len() + w10.len() + w11.len()) as int) =~= w11);
        }
        values
    }
}

impl<M0, M1, M2, M3, M4, M5, M6, M7, M8, M9, M10, M11, M12, P0: Plugins<M0>, P1: Plugins<M1>, P2: Plugins<M2>, P3: Plugins<M3>, P4: Plugins<M4>, P5: Plugins<M5>, P6: Plugins<M6>, P7: Plugins<M7>, P8: Plugins<M8>, P9: Plugins<M9>, P10: Plugins<M10>, P11: Plugins<M11>, P12: Plugins<M12>> sealed::PluginsSealed<(PluginsTupleMarker, M0, M1, M2, M3, M4, M5, M6, M7, M8, M9, M10, M11, M12,)> for (P0, P1, P2, P3, P4, P5, P6, P7, P8, P9, P10, P11, P12) {
}

impl<M0, M1, M2, M3, M4, M5, M6, M7, M8, M9, M10, M11, M12, P0: Plugins<M0>, P1: Plugins<M1>, P2: Plugins<M2>, P3: Plugins<M3>, P4: Plugins<M4>, P5: Plugins<M5>, P6: Plugins<M6>, P7: Plugins<M7>, P8: Plugins<M8>, P9: Plugins<M9>, P10: Plugins<M10>, P11: Plugins<M11>, P12: Plugins<M12>> Plugins<(PluginsTupleMarker, M0, M1, M2, M3, M4, M5, M6, M7, M8, M9, M10, M11, M12,)> for (P0, P1, P2, P3, P4, P5, P6, P7, P8, P9, P10, P11, P12) {
    open spec fn plugin_count(&self) -> nat {
        self.0.plugin_count() + self.1.plugin_count() + self.2.plugin_count() + self.3.plugin_count() + self.4.plugin_count() + self.5.plugin_count() + self.6.plugin_count() + self.7.plugin_count() + self.8.plugin_count() + self.9.plugin_count() + self.10.plugin_count() + self.11.plugin_count() + self.12.plugin_count()
    }

    open spec fn names_are(&self, ids: Seq<Seq<char>>) -> bool {
        &&& ids.len() == self.plugin_count()
        &&& self.0.names_are(ids.subrange(0, self.0.plugin_count() as int))
        &&& self.1.names_are(ids.subrange(self.0.plugin_count() as int, (self.0.plugin_count() + self.1.plugin_count()) as int))
        &&& self.2.names_are(ids.subrange((self.0.plugin_count() + self.1.plugin_count()) as int, (self.0.plugin_count() + self.1.plugin_count() + self.2.plugin_count()) as int))
        &&& self.3.names_are(ids.subrange((self.0.plugin_count() + self.1.plugin_count() + self.2.plugin_count()) as int, (self.0.plugin_count() + self.1.plugin_count() + self.2.plugin_count() + self.3.plugin_count()) as int))
        &&& self.4.names_are(ids.subrange((self.0.plugin_count() + self.1.plugin_count() + self.2.plugin_count() + self.3.plugin_count()) as int, (self.0.plugin_count() + self.1.plugin_count() + self.2.plugin_count() + self.3.plugin_count() + self.4.plugin_count()) as int))
        &&& self.5.names_are(ids.subrange((self.0.plugin_count() + self.1.plugin_count() + self.2.plugin_count() + self.3.plugin_count() + self.4.plugin_count()) as int, (self.0.plugin_count() + self.1.plugin_count() + self.2.plugin_count() + self.3.plugin_count() + self.4.plugin_count() + self.5.plugin_count()) as int))
        &&& self.6.names_are(ids.subrange((self.0.plugin_count() + self.1.plugin_count() + self.2.plugin_count() + self.3.plugin_count() + self.4.plugin_count() + self.5.plugin_count()) as int, (self.0.plugin_count() + self.1.plugin_count() + self.2.plugin_count() + self.3.plugin_count() + self.4.plugin_count() + self.5.plugin_count() + self.6.plugin_count()) as int))
        &&& self.7.names_are(ids.subrange((self.0.plugin_count() + self.1.plugin_count() + self.2.plugin_count() + self.3.plugin_count() + self.4.plugin_count() + self.5.plugin_count() + self.6.plugin_count()) as int, (self.0.plugin_count() + self.1.plugin_count() + self.2.plugin_count() + self.3.plugin_count() + self.4.plugin_count() + self.5.plugin_count() + self.6.plugin_count() + self.7.plugin_count()) as int))
        &&& self.8.names_are(ids.subrange((self.0.plugin_count() + self.1.plugin_count() + self.2.plugin_count() + self.3.plugin_count() + self.4.plugin_count() + self.5.plugin_count() + self.6.plugin_count() + self.7.plugin_count()) as int, (self.0.plugin_count() + self.1.plugin_count() + self.2.plugin_count() + self.3.plugin_count() + self.4.plugin_count() + self.5.plugin_count() + self.6.plugin_count() + self.7.plugin_count() + self.8.plugin_count()) as int))
        &&& self.9.names_are(ids.subrange((self.0.plugin_count() + self.1.plugin_count() + self.2.plugin_count() + self.3.plugin_count() + self.4.plugin_count() + self.5.plugin_count() + self.6.plugin_count() + self.7.plugin_count() + self.8.plugin_count()) as int, (self.0.plugin_count() + self.1.plugin_count() + self.2.plugin_count() + self.3.plugin_count() + self.4.plugin_count() + self.5.plugin_count() + self.6.plugin_count() + self.7.plugin_count() + self.8.plugin_count() + self.9.plugin_count()) as int))
        &&& self.10.names_are(ids.subrange((self.0.plugin_count() + self.1.plugin_count() + self.2.plugin_count() + self.3.plugin_count() + self.4.plugin_count() + self.5.plugin_count() + self.6.plugin_count() + self.7.plugin_count() + self.8.plugin_count() + self.9.plugin_count()) as int, (self.0.plugin_count() + self.1.plugin_count() + self.2.plugin_count() + self.3.plugin_count() + self.4.plugin_count() + self.5.plugin_count() + self.6.plugin_count() + self.7.plugin_count() + self.8.plugin_count() + self.9.plugin_count() + self.10.plugin_count()) as int))
        &&& self.11.names_are(ids.subrange((self.0.plugin_count() + self.1.plugin_count() + self.2.plugin_count() + self.3.plugin_count() + self.4.plugin_count() + self.5.plugin_count() + self.6.plugin_count() + self.7.plugin_count() + self.8.plugin_count() + self.9.plugin_count() + self.10.plugin_count()) as int, (self.0.plugin_count() + self.1.plugin_count() + self.2.plugin_count() + self.3.plugin_count() + self.4.plugin_count() + self.5.plugin_count() + self.6.plugin_count() + self.7.plugin_count() + self.8.plugin_count() + self.9.plugin_count() + self.10.plugin_count() + self.11.plugin_count()) as int))
        &&& self.12.names_are(ids.subrange((self.0.plugin_count() + self.1.plugin_count() + self.2.plugin_count() + self.3.plugin_count() + self.4.plugin_count() + self.5.plugin_count() + self.6.plugin_count() + self.7.plugin_count() + self.8.plugin_count() + self.9.plugin_count() + self.10.plugin_count() + self.11.plugin_count()) as int, (self.0.plugin_count() + self.1.plugin_count() + self.2.plugin_count() + self.3.plugin_count() + self.4.plugin_count() + self.5.plugin_count() + self.6.plugin_count() + self.7.plugin_count() + self.8.plugin_count() + self.9.plugin_count() + self.10.plugin_count() + self.11.plugin_count() + self.12.plugin_count()) as int))
    }

    #[verifier::rlimit(80)]
    fn plugin_type_ids(&self) -> (r: Vec<PluginTypeId>) {
        let mut values: Vec<PluginTypeId> = Vec::new();
        let mut ids0 = self.0.plugin_type_ids();
        let ghost w0 = type_id_views(ids0@);
        proof {
            lemma_views_append(values@, ids0@);
        }
        values.append(&mut ids0);
        let mut ids1 = self.1.plugin_type_ids();
        let ghost w1 = type_id_views(ids1@);
        proof {
            lemma_views_append(values@, ids1@);
        }
        values.append(&mut ids1);
        let mut ids2 = self.2.plugin_type_ids();
        let ghost w2 = type_id_views(ids2@);
        proof {
            lemma_views_append(values@, ids2@);
        }
        values.append(&mut ids2);
        let mut ids3 = self.3.plugin_type_ids();
        let ghost w3 = type_id_views(ids3@);
        proof {
            lemma_views_append(values@, ids3@);
        }
        values.append(&mut ids3);
        let mut ids4 = self.4.plugin_type_ids();
        let ghost w4 = type_id_views(ids4@);
        proof {
            lemma_views_append(values@, ids4@);
        }
        values.append(&mut ids4);
        let mut ids5 = self.5.plugin_type_ids();
        let ghost w5 = type_id_views(ids5@);
        proof {
            lemma_views_append(values@, ids5@);
        }
        values.append(&mut ids5);
        let mut ids6 = self.6.plugin_type_ids();
        let ghost w6 = type_id_views(ids6@);
        proof {
            lemma_views_append(values@, ids6@);
        }
        values.append(&mut ids6);
        let mut ids7 = self.7.plugin_type_ids();
        let ghost w7 = type_id_views(ids7@);
        proof {
            lemma_views_append(values@, ids7@);
        }
        values.append(&mut ids7);
        let mut ids8 = self.8.plugin_type_ids();
        let ghost w8 = type_id_views(ids8@);
        proof {
            lemma_views_append(values@, ids8@);
        }
        values.append(&mut ids8);
        let mut ids9 = self.9.plugin_type_ids();
        let ghost w9 = type_id_views(ids9@);
        proof {
            lemma_views_append(values@, ids9@);
        }
        values.append(&mut ids9);
        let mut ids10 = self.10.plugin_type_ids();
        let ghost w10 = type_id_views(ids10@);
        proof {
            lemma_views_append(values@, ids10@);
        }
        values.append(&mut ids10);
        let mut ids11 = self.11.plugin_type_ids();
        let ghost w11 = type_id_views(ids11@);
        proof {
            lemma_views_append(values@, ids11@);
        }
        values.append(&mut ids11);
        let mut ids12 = self.12.plugin_type_ids();
        let ghost w12 = type_id_views(ids12@);
        proof {
            lemma_views_append(values@, ids12@);
        }
        values.append(&mut ids12);
        proof {
            assert(type_id_views(values@) =~= w0 + w1 + w2 + w3 + w4 + w5 + w6 + w7 + w8 + w9 + w10 + w11 + w12);
            assert(type_id_views(values@).subrange(0, w0.len() as int) =~= w0);
            assert(type_id_views(values@).subrange(w0.len() as int, (w0.len() + w1.len()) as int) =~= w1);
            assert(type_id_views(values@).subrange((w0.len() + w1.len()) as int, (w0.len() + w1.len() + w2.len()) as int) =~= w2);
            assert(type_id_views(values@).subrange((w0.len() + w1.len() + w2.len()) as int, (w0.len() + w1.len() + w2.len() + w3.len()) as int) =~= w3);
            assert(type_id_views(values@).subrange((w0.len() + w1.len() + w2.len() + w3.len()) as int, (w0.len() + w1.len() + w2.len() + w3.len() + w4.len()) as int) =~= w4);
            assert(type_id_views(values@).subrange((w0.len() + w1.len() + w2.len() + w3.len() + w4.len()) as int, (w0.len() + w1.len() + w2.len() + w3.len() + w4.len() + w5.len()) as int) =~= w5);
            assert(type_id_views(values@).subrange((w0.len() + w1.len() + w2.len() + w3.len() + w4.len() + w5.len()) as int, (w0.len() + w1.len() + w2.len() + w3.len() + w4.len() + w5.len() + w6.len()) as int) =~= w6);
            assert(type_id_views(values@).subrange((w0.len() + w1.len() + w2.len() + w3.len() + w4.len() + w5.len() + w6.len()) as int, (w0.len() + w1.len() + w2.len() + w3.len() + w4.len() + w5.len() + w6.len() + w7.len()) as int) =~= w7);
            assert(type_id_views(values@).subrange((w0.len() + w1.len() + w2.len() + w3.len() + w4.len() + w5.len() + w6.len() + w7.len()) as int, (w0.len() + w1.len() + w2.len() + w3.len() + w4.len() + w5.len() + w6.len() + w7.len() + w8.len()) as int) =~= w8);
            assert(type_id_views(values@).subrange((w0.len() + w1.len() + w2.len() + w3.len() + w4.len() + w5.len() + w6.len() + w7.len() + w8.len()) as int, (w0.len() + w1.len() + w2.len() + w3.len() + w4.len() + w5.len() + w6.len() + w7.len() + w8.len() + w9.len()) as int) =~= w9);
            assert(type_id_views(values@).subrange((w0.len() + w1.len() + w2.len() + w3.len() + w4.len() + w5.len() + w6.len() + w7.len() + w8.len() + w9.len()) as int, (w0.len() + w1.len() + w2.len() + w3.len() + w4.len() + w5.len() + w6.len() + w7.len() + w8.len() + w9.len() + w10.len()) as int) =~= w10);
            assert(type_id_views(values@).subrange((w0.len() + w1.len() + w2.len() + w3.len() + w4.len() + w5.len() + w6.len() + w7.len() + w8.len() + w9.len() + w10.len()) as int, (w0.len() + w1.len() + w2.len() + w3.len() + w4.len() + w5.len() + w6.len() + w7.len() + w8.len() + w9.len() + w10.len() + w11.len()) as int) =~= w11);
            assert(type_id_views(values@).subrange((w0.len() + w1.len() + w2.len() + w3.len() + w4.len() + w5.len() + w6.len() + w7.len() + w8.len() + w9.len() + w10.len() + w11.len()) as int, (w0.len() + w1.len() + w2.len() + w3.len() + w4.len() + w5.len() + w6.len() + w7.len() + w8.len() + w9.len() + w10.len() + w11.len() + w12.len()) as int) =~= w12);
        }
        values
    }
}

impl<M0, M1, M2, M3, M4, M5, M6, M7, M8, M9, M10, M11, M12, M13, P0: Plugins<M0>, P1: Plugins<M1>, P2: Plugins<M2>, P3: Plugins<M3>, P4: Plugins<M4>, P5: Plugins<M5>, P6: Plugins<M6>, P7: Plugins<M7>, P8: Plugins<M8>, P9: Plugins<M9>, P10: Plugins<M10>, P11: Plugins<M11>, P12: Plugins<M12>, P13: Plugins<M13>> sealed::PluginsSealed<(PluginsTupleMarker, M0, M1, M2, M3, M4, M5, M6, M7, M8, M9, M10, M11, M12, M13,)> for (P0, P1, P2, P3, P4, P5, P6, P7, P8, P9, P10, P11, P12, P13) {
}

impl<M0, M1, M2, M3, M4, M5, M6, M7, M8, M9, M10, M11, M12, M13, P0: Plugins<M0>, P1: Plugins<M1>, P2: Plugins<M2>, P3: Plugins<M3>, P4: Plugins<M4>, P5: Plugins<M5>, P6: Plugins<M6>, P7: Plugins<M7>, P8: Plugins<M8>, P9: Plugins<M9>, P10: Plugins<M10>, P11: Plugins<M11>, P12: Plugins<M12>, P13: Plugins<M13>> Plugins<(PluginsTupleMarker, M0, M1, M2, M3, M4, M5, M6, M7, M8, M9, M10, M11, M12, M13,)> for (P0, P1, P2, P3, P4, P5, P6, P7, P8, P9, P10, P11, P12, P13) {
    open spec fn plugin_count(&self) -> nat {
        self.0.plugin_count() + self.1.plugin_count() + self.2.plugin_count() + self.3.plugin_count() + self.4.plugin_count() + self.5.plugin_count() + self.6.plugin_count() + self.7.plugin_count() + self.8.plugin_count() + self.9.plugin_count() + self.10.plugin_count() + self.11.plugin_count() + self.12.plugin_count() + self.13.plugin_count()
    }

    open spec fn names_are(&self, ids: Seq<Seq<char>>) -> bool {
        &&& ids.len() == self.plugin_count()
        &&& self.0.names_are(ids.subrange(0, self.0.plugin_count() as int))
        &&& self.1.names_are(ids.subrange(self.0.plugin_count() as int, (self.0.plugin_count() + self.1.plugin_count()) as int))
        &&& self.2.names_are(ids.subrange((self.0.plugin_count() + self.1.plugin_count()) as int, (self.0.plugin_count() + self.1.plugin_count() + self.2.plugin_count()) as int))
        &&& self.3.names_are(ids.subrange((self.0.plugin_count() + self.1.plugin_count() + self.2.plugin_count()) as int, (self.0.plugin_count() + self.1.plugin_count() + self.2.plugin_count() + self.3.plugin_count()) as int))
        &&& self.4.names_are(ids.subrange((self.0.plugin_count() + self.1.plugin_count() + self.2.plugin_count() + self.3.plugin_count()) as int, (self.0.plugin_count() + self.1.plugin_count() + self.2.plugin_count() + self.3.plugin_count() + self.4.plugin_count()) as int))
        &&& self.5.names_are(ids.subrange((self.0.plugin_count() + self.1.plugin_count() + self.2.plugin_count() + self.3.plugin_count() + self.4.plugin_count()) as int, (self.0.plugin_count() + self.1.plugin_count() + self.2.plugin_count() + self.3.plugin_count() + self.4.plugin_count() + self.5.plugin_count()) as int))
        &&& self.6.names_are(ids.subrange((self.0.plugin_count() + self.1.plugin_count() + self.2.plugin_count() + self.3.plugin_count() + self.4.plugin_count() + self.5.plugin_count()) as int, (self.0.plugin_count() + self.1.plugin_count() + self.2.plugin_count() + self.3.plugin_count() + self.4.plugin_count() + self.5.plugin_count() + self.6.plugin_count()) as int))
        &&& self.7.names_are(ids.subrange((self.0.plugin_count() + self.1.plugin_count() + self.2.plugin_count() + self.3.plugin_count() + self.4.plugin_count() + self.5.plugin_count() + self.6.plugin_count()) as int, (self.0.plugin_count() + self.1.plugin_count() + self.2.plugin_count() + self.3.plugin_count() + self.4.plugin_count() + self.5.plugin_count() + self.6.plugin_count() + self.7.plugin_count()) as int))
        &&& self.8.names_are(ids.subrange((self.0.plugin_count() + self.1.plugin_count() + self.2.plugin_count() + self.3.plugin_count() + self.4.plugin_count() + self.5.plugin_count() + self.6.plugin_count() + self.7.plugin_count()) as int, (self.0.plugin_count() + self.1.plugin_count() + self.2.plugin_count() + self.3.plugin_count() + self.4.plugin_count() + self.5.plugin_count() + self.6.plugin_count() + self.7.plugin_count() + self.8.plugin_count()) as int))
        &&& self.9.names_are(ids.subrange((self.0.plugin_count() + self.1.plugin_count() + self.2.plugin_count() + self.3.plugin_count() + self.4.plugin_count() + self.5.plugin_count() + self.6.plugin_count() + self.7.plugin_count() + self.8.plugin_count()) as int, (self.0.plugin_count() + self.1.plugin_count() + self.2.plugin_count() + self.3.plugin_count() + self.4.plugin_count() + self.5.plugin_count() + self.6.plugin_count() + self.7.plugin_count() + self.8.plugin_count() + self.9.plugin_count()) as int))
        &&& self.10.names_are(ids.subrange((self.0.plugin_count() + self.1.plugin_count() + self.2.plugin_count() + self.3.plugin_count() + self.4.plugin_count() + self.5.plugin_count() + self.6.plugin_count() + self.7.plugin_count() + self.8.plugin_count() + self.9.plugin_count()) as int, (self.0.plugin_count() + self.1.plugin_count() + self.2.plugin_count() + self.3.plugin_count() + self.4.plugin_count() + self.5.plugin_count() + self.6.plugin_count() + self.7.plugin_count() + self.8.plugin_count() + self.9.plugin_count() + self.10.plugin_count()) as int))
        &&& self.11.names_are(ids.subrange((self.0.plugin_count() + self.1.plugin_count() + self.2.plugin_count() + self.3.plugin_count() + self.4.plugin_count() + self.5.plugin_count() + self.6.plugin_count() + self.7.plugin_count() + self.8.plugin_count() + self.9.plugin_count() + self.10.plugin_count()) as int, (self.0.plugin_count() + self.1.plugin_count() + self.2.plugin_count() + self.3.plugin_count() + self.4.plugin_count() + self.5.plugin_count() + self.6.plugin_count() + self.7.plugin_count() + self.8.plugin_count() + self.9.plugin_count() + self.10.plugin_count() + self.11.plugin_count()) as int))
        &&& self.12.names_are(ids.subrange((self.0.plugin_count() + self.1.plugin_count() + self.2.plugin_count() + self.3.plugin_count() + self.4.plugin_count() + self.5.plugin_count() + self.6.plugin_count() + self.7.plugin_count() + self.8.plugin_count() + self.9.plugin_count() + self.10.plugin_count() + self.11.plugin_count()) as int, (self.0.plugin_count() + self.1.plugin_count() + self.2.plugin_count() + self.3.plugin_count() + self.4.plugin_count() + self.5.plugin_count() + self.6.plugin_count() + self.7.plugin_count() + self.8.plugin_count() + self.9.plugin_count() + self.10.plugin_count() + self.11.plugin_count() + self.12.plugin_count()) as int))
        &&& self.13.names_are(ids.subrange((self.0.plugin_count() + self.1.plugin_count() + self.2.plugin_count() + self.3.plugin_count() + self.4.plugin_count() + self.5.plugin_count() + self.6.plugin_count() + self.7.plugin_count() + self.8.plugin_count() + self.9.plugin_count() + self.10.plugin_count() + self.11.plugin_count() + self.12.plugin_count()) as int, (self.0.plugin_count() + self.1.plugin_count() + self.2.plugin_count() + self.3.plugin_count() + self.4.plugin_count() + self.5.plugin_count() + self.6.plugin_count() + self.7.plugin_count() + self.8.plugin_count() + self.9.plugin_count() + self.10.plugin_count() + self.11.plugin_count() + self.12.plugin_count() + self.13.plugin_count()) as int))
    }

    #[verifier::rlimit(80)]
    fn plugin_type_ids(&self) -> (r: Vec<PluginTypeId>) {
        let mut values: Vec<PluginTypeId> = Vec::new();
        let mut ids0 = self.0.plugin_type_ids();
        let ghost w0 = type_id_views(ids0@);
        proof {
            lemma_views_append(values@, ids0@);
        }
        values.append(&mut ids0);
        let mut ids1 = self.1.plugin_type_ids();
        let ghost w1 = type_id_views(ids1@);
        proof {
            lemma_views_append(values@, ids1@);
        }
        values.append(&mut ids1);
        let mut ids2 = self.2.plugin_type_ids();
        let ghost w2 = type_id_views(ids2@);
        proof {
            lemma_views_append(values@, ids2@);
        }
        values.append(&mut ids2);
        let mut ids3 = self.3.plugin_type_ids();
        let ghost w3 = type_id_views(ids3@);
        proof {
            lemma_views_append(values@, ids3@);
        }
        values.append(&mut ids3);
        let mut ids4 = self.4.plugin_type_ids();
        let ghost w4 = type_id_views(ids4@);
        proof {
            lemma_views_append(values@, ids4@);
        }
        values.append(&mut ids4);
        let mut ids5 = self.5.plugin_type_ids();
        let ghost w5 = type_id_views(ids5@);
        proof {
            lemma_views_append(values@, ids5@);
        }
        values.append(&mut ids5);
        let mut ids6 = self.6.plugin_type_ids();
        let ghost w6 = type_id_views(ids6@);
        proof {
            lemma_views_append(values@, ids6@);
        }
        values.append(&mut ids6);
        let mut ids7 = self.7.plugin_type_ids();
        let ghost w7 = type_id_views(ids7@);
        proof {
            lemma_views_append(values@, ids7@);
        }
        values.append(&mut ids7);
        let mut ids8 = self.8.plugin_type_ids();
        let ghost w8 = type_id_views(ids8@);
        proof {
            lemma_views_append(values@, ids8@);
        }
        values.append(&mut ids8);
        let mut ids9 = self.9.plugin_type_ids();
        let ghost w9 = type_id_views(ids9@);
        proof {
            lemma_views_append(values@, ids9@);
        }
        values.append(&mut ids9);
        let mut ids10 = self.10.plugin_type_ids();
        let ghost w10 = type_id_views(ids10@);
        proof {
            lemma_views_append(values@, ids10@);
        }
        values.append(&mut ids10);
        let mut ids11 = self.11.plugin_type_ids();
        let ghost w11 = type_id_views(ids11@);
        proof {
            lemma_views_append(values@, ids11@);
        }
        values.append(&mut ids11);
        let mut ids12 = self.12.plugin_type_ids();
        let ghost w12 = type_id_views(ids12@);
        proof {
            lemma_views_append(values@, ids12@);
        }
        values.append(&mut ids12);
        let mut ids13 = self.13.plugin_type_ids();
        let ghost w13 = type_id_views(ids13@);
        proof {
            lemma_views_append(values@, ids13@);
        }
        values.append(&mut ids13);
        proof {
            assert(type_id_views(values@) =~= w0 + w1 + w2 + w3 + w4 + w5 + w6 + w7 + w8 + w9 + w10 + w11 + w12 + w13);
            assert(type_id_views(values@).subrange(0, w0.len() as int) =~= w0);
            assert(type_id_views(values@).subrange(w0.len() as int, (w0.len() + w1.len()) as int) =~= w1);
            assert(type_id_views(values@).subrange((w0.len() + w1.len()) as int, (w0.len() + w1.len() + w2.len()) as int) =~= w2);
            assert(type_id_views(values@).subrange((w0.len() + w1.len() + w2.len()) as int, (w0.len() + w1.len() + w2.len() + w3.len()) as int) =~= w3);
            assert(type_id_views(values@).subrange((w0.len() + w1.len() + w2.len() + w3.len()) as int, (w0.len() + w1.len() + w2.len() + w3.len() + w4.len()) as int) =~= w4);
            assert(type_id_views(values@).subrange((w0.len() + w1.len() + w2.len() + w3.len() + w4.len()) as int, (w0.len() + w1.len() + w2.len() + w3.len() + w4.len() + w5.len()) as int) =~= w5);
            assert(type_id_views(values@).subrange((w0.len() + w1.len() + w2.len() + w3.len() + w4.len() + w5.len()) as int, (w0.len() + w1.len() + w2.len() + w3.len() + w4.len() + w5.len() + w6.len()) as int) =~= w6);
            assert(type_id_views(values@).subrange((w0.len() + w1.len() + w2.len() + w3.len() + w4.len() + w5.len() + w6.len()) as int, (w0.len() + w1.len() + w2.len() + w3.len() + w4.len() + w5.len() + w6.len() + w7.len()) as int) =~= w7);
            assert(type_id_views(values@).subrange((w0.len() + w1.len() + w2.len() + w3.len() + w4.len() + w5.len() + w6.len() + w7.len()) as int, (w0.len() + w1.len() + w2.len() + w3.len() + w4.len() + w5.len() + w6.len() + w7.len() + w8.len()) as int) =~= w8);
            assert(type_id_views(values@).subrange((w0.len() + w1.len() + w2.len() + w3.len() + w4.len() + w5.len() + w6.len() + w7.len() + w8.len()) as int, (w0.len() + w1.len() + w2.len() + w3.len() + w4.len() + w5.len() + w6.len() + w7.len() + w8.len() + w9.len()) as int) =~= w9);
            assert(type_id_views(values@).subrange((w0.len() + w1.len() + w2.len() + w3.len() + w4.len() + w5.len() + w6.len() + w7.len() + w8.len() + w9.len()) as int, (w0.len() + w1.len() + w2.len() + w3.len() + w4.len() + w5.len() + w6.len() + w7.len() + w8.len() + w9.len() + w10.len()) as int) =~= w10);
            assert(type_id_views(values@).subrange((w0.len() + w1.len() + w2.len() + w3.len() + w4.len() + w5.len() + w6.len() + w7.len() + w8.len() + w9.len() + w10.len()) as int, (w0.len() + w1.len() + w2.len() + w3.len() + w4.len() + w5.len() + w6.len() + w7.len() + w8.len() + w9.len() + w10.len() + w11.len()) as int) =~= w11);
            assert(type_id_views(values@).subrange((w0.len() + w1.len() + w2.len() + w3.len() + w4.len() + w5.len() + w6.len() + w7.len() + w8.len() + w9.len() + w10.len() + w11.len()) as int, (w0.len() + w1.len() + w2.len() + w3.len() + w4.len() + w5.len() + w6.len() + w7.len() + w8.len() + w9.len() + w10.len() + w11.len() + w12.len()) as int) =~= w12);
            assert(type_id_views(values@).subrange((w0.len() + w1.len() + w2.len() + w3.len() + w4.len() + w5.len() + w6.len() + w7.len() + w8.len() + w9.len() + w10.len() + w11.len() + w12.len()) as int, (w0.len() + w1.len() + w2.len() + w3.len() + w4.len() + w5.len() + w6.len() + w7.len() + w8.len() + w9.len() + w10.len() + w11.len() + w12.len() + w13.len()) as int) =~= w13);
        }
        values
    }
}

impl<M0, M1, M2, M3, M4, M5, M6, M7, M8, M9, M10, M11, M12, M13, M14, P0: Plugins<M0>, P1: Plugins<M1>, P2: Plugins<M2>, P3: Plugins<M3>, P4: Plugins<M4>, P5: Plugins<M5>, P6: Plugins<M6>, P7: Plugins<M7>, P8: Plugins<M8>, P9: Plugins<M9>, P10: Plugins<M10>, P11: Plugins<M11>, P12: Plugins<M12>, P13: Plugins<M13>, P14: Plugins<M14>> sealed::PluginsSealed<(PluginsTupleMarker, M0, M1, M2, M3, M4, M5, M6, M7, M8, M9, M10, M11, M12, M13, M14,)> for (P0, P1, P2, P3, P4, P5, P6, P7, P8, P9, P10, P11, P12, P13, P14) {
}

impl<M0, M1, M2, M3, M4, M5, M6, M7, M8, M9, M10, M11, M12, M13, M14, P0: Plugins<M0>, P1: Plugins<M1>, P2: Plugins<M2>, P3: Plugins<M3>, P4: Plugins<M4>, P5: Plugins<M5>, P6: Plugins<M6>, P7: Plugins<M7>, P8: Plugins<M8>, P9: Plugins<M9>, P10: Plugins<M10>, P11: Plugins<M11>, P12: Plugins<M12>, P13: Plugins<M13>, P14: Plugins<M14>> Plugins<(PluginsTupleMarker, M0, M1, M2, M3, M4, M5, M6, M7, M8, M9, M10, M11, M12, M13, M14,)> for (P0, P1, P2, P3, P4, P5, P6, P7, P8, P9, P10, P11, P12, P13, P14) {
    open spec fn plugin_count(&self) -> nat {
        self.0.plugin_count() + self.1.plugin_count() + self.2.plugin_count() + self.3.plugin_count() + self.4.plugin_count() + self.5.plugin_count() + self.6.plugin_count() + self.7.plugin_count() + self.8.plugin_count() + self.9.plugin_count() + self.10.plugin_count() + self.11.plugin_count() + self.12.plugin_count() + self.13.plugin_count() + self.14.plugin_count()
    }

    open spec fn names_are(&self, ids: Seq<Seq<char>>) -> bool {
        &&& ids.len() == self.plugin_count()
        &&& self.0.names_are(ids.subrange(0, self.0.plugin_count() as int))
        &&& self.1.names_are(ids.subrange(self.0.plugin_count() as int, (self.0.plugin_count() + self.1.plugin_count()) as int))
        &&& self.2.names_are(ids.subrange((self.0.plugin_count() + self.1.plugin_count()) as int, (self.0.plugin_count() + self.1.plugin_count() + self.2.plugin_count()) as int))
        &&& self.3.names_are(ids.subrange((self.0.plugin_count() + self.1.plugin_count() + self.2.plugin_count()) as int, (self.0.plugin_count() + self.1.plugin_count() + self.2.plugin_count() + self.3.plugin_count()) as int))
        &&& self.4.names_are(ids.subrange((self.0.plugin_count() + self.1.plugin_count() + self.2.plugin_count() + self.3.plugin_count()) as int, (self.0.plugin_count() + self.1.plugin_count() + self.2.plugin_count() + self.3.plugin_count() + self.4.plugin_count()) as int))
        &&& self.5.names_are(ids.subrange((self.0.plugin_count() + self.1.plugin_count() + self.2.plugin_count() + self.3.plugin_count() + self.4.plugin_count()) as int, (self.0.plugin_count() + self.1.plugin_count() + self.2.plugin_count() + self.3.plugin_count() + self.4.plugin_count() + self.5.plugin_count()) as int))
        &&& self.6.names_are(ids.subrange((self.0.plugin_count() + self.1.plugin_count() + self.2.plugin_count() + self.3.plugin_count() + self.4.plugin_count() + self.5.plugin_count()) as int, (self.0.plugin_count() + self.1.plugin_count() + self.2.plugin_count() + self.3.plugin_count() + self.4.plugin_count() + self.5.plugin_count() + self.6.plugin_count()) as int))
        &&& self.7.names_are(ids.subrange((self.0.plugin_count() + self.1.plugin_count() + self.2.plugin_count() + self.3.plugin_count() + self.4.plugin_count() + self.5.plugin_count() + self.6.plugin_count()) as int, (self.0.plugin_count() + self.1.plugin_count() + self.2.plugin_count() + self.3.plugin_count() + self.4.plugin_count() + self.5.plugin_count() + self.6.plugin_count() + self.7.plugin_count()) as int))
        &&& self.8.names_are(ids.subrange((self.0.plugin_count() + self.1.plugin_count() + self.2.plugin_count() + self.3.plugin_count() + self.4.plugin_count() + self.5.plugin_count() + self.6.plugin_count() + self.7.plugin_count()) as int, (self.0.plugin_count() + self.1.plugin_count() + self.2.plugin_count() + self.3.plugin_count() + self.4.plugin_count() + self.5.plugin_count() + self.6.plugin_count() + self.7.plugin_count() + self.8.plugin_count()) as int))
        &&& self.9.names_are(ids.subrange((self.0.plugin_count() + self.1.plugin_count() + self.2.plugin_count() + self.3.plugin_count() + self.4.plugin_count() + self.5.plugin_count() + self.6.plugin_count() + self.7.plugin_count() + self.8.plugin_count()) as int, (self.0.plugin_count() + self.1.plugin_count() + self.2.plugin_count() + self.3.plugin_count() + self.4.plugin_count() + self.5.plugin_count() + self.6.plugin_count() + self.7.plugin_count() + self.8.plugin_count() + self.9.plugin_count()) as int))
        &&& self.10.names_are(ids.subrange((self.0.plugin_count() + self.1.plugin_count() + self.2.plugin_count() + self.3.plugin_count() + self.4.plugin_count() + self.5.plugin_count() + self.6.plugin_count() + self.7.plugin_count() + self.8.plugin_count() + self.9.plugin_count()) as int, (self.0.plugin_count() + self.1.plugin_count() + self.2.plugin_count() + self.3.plugin_count() + self.4.plugin_count() + self.5.plugin_count() + self.6.plugin_count() + self.7.plugin_count() + self.8.plugin_count() + self.9.plugin_count() + self.10.plugin_count()) as int))
        &&& self.11.names_are(ids.subrange((self.0.plugin_count() + self.1.plugin_count() + self.2.plugin_count() + self.3.plugin_count() + self.4.plugin_count() + self.5.plugin_count() + self.6.plugin_count() + self.7.plugin_count() + self.8.plugin_count() + self.9.plugin_count() + self.10.plugin_count()) as int, (self.0.plugin_count() + self.1.plugin_count() + self.2.plugin_count() + self.3.plugin_count() + self.4.plugin_count() + self.5.plugin_count() + self.6.plugin_count() + self.7.plugin_count() + self.8.plugin_count() + self.9.plugin_count() + self.10.plugin_count() + self.11.plugin_count()) as int))
        &&& self.12.names_are(ids.subrange((self.0.plugin_count() + self.1.plugin_count() + self.2.plugin_count() + self.3.plugin_count() + self.4.plugin_count() + self.5.plugin_count() + self.6.plugin_count() + self.7.plugin_count() + self.8.plugin_count() + self.9.plugin_count() + self.10.plugin_count() + self.11.plugin_count()) as int, (self.0.plugin_count() + self.1.plugin_count() + self.2.plugin_count() + self.3.plugin_count() + self.4.plugin_count() + self.5.plugin_count() + self.6.plugin_count() + self.7.plugin_count() + self.8.plugin_count() + self.9.plugin_count() + self.10.plugin_count() + self.11.plugin_count() + self.12.plugin_count()) as int))
        &&& self.13.names_are(ids.subrange((self.0.plugin_count() + self.1.plugin_count() + self.2.plugin_count() + self.3.plugin_count() + self.4.plugin_count() + self.5.plugin_count() + self.6.plugin_count() + self.7.plugin_count() + self.8.plugin_count() + self.9.plugin_count() + self.10.plugin_count() + self.11.plugin_count() + self.12.plugin_count()) as int, (self.0.plugin_count() + self.1.plugin_count() + self.2.plugin_count() + self.3.plugin_count() + self.4.plugin_count() + self.5.plugin_count() + self.6.plugin_count() + self.7.plugin_count() + self.8.plugin_count() + self.9.plugin_count() + self.10.plugin_count() + self.11.plugin_count() + self.12.plugin_count() + self.13.plugin_count()) as int))
        &&& self.14.names_are(ids.subrange((self.0.plugin_count() + self.1.plugin_count() + self.2.plugin_count() + self.3.plugin_count() + self.4.plugin_count() + self.5.plugin_count() + self.6.plugin_count() + self.7.plugin_count() + self.8.plugin_count() + self.9.plugin_count() + self.10.plugin_count() + self.11.plugin_count() + self.12.plugin_count() + self.13.plugin_count()) as int, (self.0.plugin_count() + self.1.plugin_count() + self.2.plugin_count() + self.3.plugin_count() + self.4.plugin_count() + self.5.plugin_count() + self.6.plugin_count() + self.7.plugin_count() + self.8.plugin_count() + self.9.plugin_count() + self.10.plugin_count() + self.11.plugin_count() + self.12.plugin_count() + self.13.plugin_count() + self.14.plugin_count()) as int))
    }

    #[verifier::rlimit(80)]
    fn plugin_type_ids(&self) -> (r: Vec<PluginTypeId>) {
        let mut values: Vec<PluginTypeId> = Vec::new();
        let mut ids0 = self.0.plugin_type_ids();
        let ghost w0 = type_id_views(ids0@);
        proof {
            lemma_views_append(values@, ids0@);
        }
        values.append(&mut ids0);
        let mut ids1 = self.1.plugin_type_ids();
        let ghost w1 = type_id_views(ids1@);
        proof {
            lemma_views_append(values@, ids1@);
        }
        values.append(&mut ids1);
        let mut ids2 = self.2.plugin_type_ids();
        let ghost w2 = type_id_views(ids2@);
        proof {
            lemma_views_append(values@, ids2@);
        }
        values.append(&mut ids2);
        let mut ids3 = self.3.plugin_type_ids();
        let ghost w3 = type_id_views(ids3@);
        proof {
            lemma_views_append(values@, ids3@);
        }
        values.append(&mut ids3);
        let mut ids4 = self.4.plugin_type_ids();
        let ghost w4 = type_id_views(ids4@);
        proof {
            lemma_views_append(values@, ids4@);
        }
        values.append(&mut ids4);
        let mut ids5 = self.5.plugin_type_ids();
        let ghost w5 = type_id_views(ids5@);
        proof {
            lemma_views_append(values@, ids5@);
        }
        values.append(&mut ids5);
        let mut ids6 = self.6.plugin_type_ids();
        let ghost w6 = type_id_views(ids6@);
        proof {
            lemma_views_append(values@, ids6@);
        }
        values.append(&mut ids6);
        let mut ids7 = self.7.plugin_type_ids();
        let ghost w7 = type_id_views(ids7@);
        proof {
            lemma_views_append(values@, ids7@);
        }
        values.append(&mut ids7);
        let mut ids8 = self.8.plugin_type_ids();
        let ghost w8 = type_id_views(ids8@);
        proof {
            lemma_views_append(values@, ids8@);
        }
        values.append(&mut ids8);
        let mut ids9 = self.9.plugin_type_ids();
        let ghost w9 = type_id_views(ids9@);
        proof {
            lemma_views_append(values@, ids9@);
        }
        values.append(&mut ids9);
        let mut ids10 = self.10.plugin_type_ids();
        let ghost w10 = type_id_views(ids10@);
        proof {
            lemma_views_append(values@, ids10@);
        }
        values.append(&mut ids10);
        let mut ids11 = self.11.plugin_type_ids();
        let ghost w11 = type_id_views(ids11@);
        proof {
            lemma_views_append(values@, ids11@);
        }
        values.append(&mut ids11);
        let mut ids12 = self.12.plugin_type_ids();
        let ghost w12 = type_id_views(ids12@);
        proof {
            lemma_views_append(values@, ids12@);
        }
        values.append(&mut ids12);
        let mut ids13 = self.13.plugin_type_ids();
        let ghost w13 = type_id_views(ids13@);
        proof {
            lemma_views_append(values@, ids13@);
        }
        values.append(&mut ids13);
        let mut ids14 = self.14.plugin_type_ids();
        let ghost w14 = type_id_views(ids14@);
        proof {
            lemma_views_append(values@, ids14@);
        }
        values.append(&mut ids14);
        proof {
            assert(type_id_views(values@) =~= w0 + w1 + w2 + w3 + w4 + w5 + w6 + w7 + w8 + w9 + w10 + w11 + w12 + w13 + w14);
            assert(type_id_views(values@).subrange(0, w0.len() as int) =~= w0);
            assert(type_id_views(values@).subrange(w0.len() as int, (w0.len() + w1.len()) as int) =~= w1);
            assert(type_id_views(values@).subrange((w0.len() + w1.len()) as int, (w0.len() + w1.len() + w2.len()) as int) =~= w2);
            assert(type_id_views(values@).subrange((w0.len() + w1.len() + w2.len()) as int, (w0.len() + w1.len() + w2.len() + w3.len()) as int) =~= w3);
            assert(type_id_views(values@).subrange((w0.len() + w1.len() + w2.len() + w3.len()) as int, (w0.len() + w1.len() + w2.len() + w3.len() + w4.len()) as int) =~= w4);
            assert(type_id_views(values@).subrange((w0.len() + w1.len() + w2.len() + w3.len() + w4.len()) as int, (w0.len() + w1.len() + w2.len() + w3.len() + w4.len() + w5.len()) as int) =~= w5);
            assert(type_id_views(values@).subrange((w0.len() + w1.len() + w2.len() + w3.len() + w4.len() + w5.len()) as int, (w0.len() + w1.len() + w2.len() + w3.len() + w4.len() + w5.len() + w6.len()) as int) =~= w6);
            assert(type_id_views(values@).subrange((w0.len() + w1.len() + w2.len() + w3.len() + w4.len() + w5.len() + w6.len()) as int, (w0.len() + w1.len() + w2.len() + w3.len() + w4.len() + w5.len() + w6.len() + w7.len()) as int) =~= w7);
            assert(type_id_views(values@).subrange((w0.len() + w1.len() + w2.len() + w3.len() + w4.len() + w5.len() + w6.len() + w7.len()) as int, (w0.len() + w1.len() + w2.len() + w3.len() + w4.len() + w5.len() + w6.len() + w7.len() + w8.len()) as int) =~= w8);
            assert(type_id_views(values@).subrange((w0.len() + w1.len() + w2.len() + w3.len() + w4.len() + w5.len() + w6.len() + w7.len() + w8.len()) as int, (w0.len() + w1.len() + w2.len() + w3.len() + w4.len() + w5.len() + w6.len() + w7.len() + w8.len() + w9.len()) as int) =~= w9);
            assert(type_id_views(values@).subrange((w0.len() + w1.len() + w2.len() + w3.len() + w4.len() + w5.len() + w6.len() + w7.len() + w8.len() + w9.len()) as int, (w0.len() + w1.len() + w2.len() + w3.len() + w4.len() + w5.len() + w6.len() + w7.len() + w8.len() + w9.len() + w10.len()) as int) =~= w10);
            assert(type_id_views(values@).subrange((w0.len() + w1.len() + w2.len() + w3.len() + w4.len() + w5.len() + w6.len() + w7.len() + w8.len() + w9.len() + w10.len()) as int, (w0.len() + w1.len() + w2.len() + w3.len() + w4.len() + w5.len() + w6.len() + w7.len() + w8.len() + w9.len() + w10.len() + w11.len()) as int) =~= w11);
            assert(type_id_views(values@).subrange((w0.len() + w1.len() + w2.len() + w3.len() + w4.len() + w5.len() + w6.len() + w7.len() + w8.len() + w9.len() + w10.len() + w11.len()) as int, (w0.len() + w1.len() + w2.len() + w3.len() + w4.len() + w5.len() + w6.len() + w7.len() + w8.len() + w9.len() + w10.len() + w11.len() + w12.len()) as int) =~= w12);
            assert(type_id_views(values@).subrange((w0.len() + w1.len() + w2.len() + w3.len() + w4.len() + w5.len() + w6.len() + w7.len() + w8.len() + w9.len() + w10.len() + w11.len() + w12.len()) as int, (w0.len() + w1.len() + w2.len() + w3.len() + w4.len() + w5.len() + w6.len() + w7.len() + w8.len() + w9.len() + w10.len() + w11.len() + w12.len() + w13.len()) as int) =~= w13);
            assert(type_id_views(values@).subrange((w0.len() + w1.len() + w2.len() + w3.len() + w4.len() + w5.len() + w6.len() + w7.len() + w8.len() + w9.len() + w10.len() + w11.len() + w12.len() + w13.len()) as int, (w0.len() + w1.len() + w2.len() + w3.len() + w4.len() + w5.len() + w6.len() + w7.len() + w8.len() + w9.len() + w10.len() + w11.len() + w12.len() + w13.len() + w14.len()) as int) =~= w14);
        }
        values
    }
}

/// The names of a tuple of 1 plugin set are the names of its element:
/// names given for each element, joined in that order, are names of the tuple, and no
/// other joining is.
pub proof fn lemma_tuple1_names<M0, P0: Plugins<M0>>(t: (P0,), a0: Seq<Seq<char>>)
    requires
        a0.len() == t.0.plugin_count(),
    ensures
        t.names_are(a0) == (t.0.names_are(a0)),
{
    let cat = a0;
    assert(cat.subrange((0) as int, (0 + a0.len()) as int) =~= a0);
}

/// The names of a tuple of 2 plugin sets are the names of its elements, one after the other in tuple order:
/// names given for each element, joined in that order, are names of the tuple, and no
/// other joining is.
pub proof fn lemma_tuple2_names<M0, M1, P0: Plugins<M0>, P1: Plugins<M1>>(t: (P0, P1), a0: Seq<Seq<char>>, a1: Seq<Seq<char>>)
    requires
        a0.len() == t.0.plugin_count(),
        a1.len() == t.1.plugin_count(),
    ensures
        t.names_are(a0 + a1) == (t.0.names_are(a0) && t.1.names_are(a1)),
{
    let cat = a0 + a1;
    assert(cat.subrange((0) as int, (0 + a0.len()) as int) =~= a0);
    assert(cat.subrange((a0.len()) as int, (a0.len() + a1.len()) as int) =~= a1);
}

/// The names of a tuple of 3 plugin sets are the names of its elements, one after the other in tuple order:
/// names given for each element, joined in that order, are names of the tuple, and no
/// other joining is.
pub proof fn lemma_tuple3_names<M0, M1, M2, P0: Plugins<M0>, P1: Plugins<M1>, P2: Plugins<M2>>(t: (P0, P1, P2), a0: Seq<Seq<char>>, a1: Seq<Seq<char>>, a2: Seq<Seq<char>>)
    requires
        a0.len() == t.0.plugin_count(),
        a1.len() == t.1.plugin_count(),
        a2.len() == t.2.plugin_count(),
    ensures
        t.names_are(a0 + a1 + a2) == (t.0.names_are(a0) && t.1.names_are(a1) && t.2.names_are(a2)),
{
    let cat = a0 + a1 + a2;
    assert(cat.subrange((0) as int, (0 + a0.len()) as int) =~= a0);
    assert(cat.subrange((a0.len()) as int, (a0.len() + a1.len()) as int) =~= a1);
    assert(cat.subrange((a0.len() + a1.len()) as int, (a0.len() + a1.len() + a2.len()) as int) =~= a2);
}

/// The names of a tuple of 4 plugin sets are the names of its elements, one after the other in tuple order:
/// names given for each element, joined in that order, are names of the tuple, and no
/// other joining is.
pub proof fn lemma_tuple4_names<M0, M1, M2, M3, P0: Plugins<M0>, P1: Plugins<M1>, P2: Plugins<M2>, P3: Plugins<M3>>(t: (P0, P1, P2, P3), a0: Seq<Seq<char>>, a1: Seq<Seq<char>>, a2: Seq<Seq<char>>, a3: Seq<Seq<char>>)
    requires
        a0.len() == t.0.plugin_count(),
        a1.len() == t.1.plugin_count(),
        a2.len() == t.2.plugin_count(),
        a3.len() == t.3.plugin_count(),
    ensures
        t.names_are(a0 + a1 + a2 + a3) == (t.0.names_are(a0) && t.1.names_are(a1) && t.2.names_are(a2) && t.3.names_are(a3)),
{
    let cat = a0 + a1 + a2 + a3;
    assert(cat.subrange((0) as int, (0 + a0.len()) as int) =~= a0);
    assert(cat.subrange((a0.len()) as int, (a0.len() + a1.len()) as int) =~= a1);
    assert(cat.subrange((a0.len() + a1.len()) as int, (a0.len() + a1.len() + a2.len()) as int) =~= a2);
    assert(cat.subrange((a0.len() + a1.len() + a2.len()) as int, (a0.len() + a1.len() + a2.len() + a3.len()) as int) =~= a3);
}

/// The names of a tuple of 5 plugin sets are the names of its elements, one after the other in tuple order:
/// names given for each element, joined in that order, are names of the tuple, and no
/// other joining is.
pub proof fn lemma_tuple5_names<M0, M1, M2, M3, M4, P0: Plugins<M0>, P1: Plugins<M1>, P2: Plugins<M2>, P3: Plugins<M3>, P4: Plugins<M4>>(t: (P0, P1, P2, P3, P4), a0: Seq<Seq<char>>, a1: Seq<Seq<char>>, a2: Seq<Seq<char>>, a3: Seq<Seq<char>>, a4: Seq<Seq<char>>)
    requires
        a0.len() == t.0.plugin_count(),
        a1.len() == t.1.plugin_count(),
        a2.len() == t.2.plugin_count(),
        a3.len() == t.3.plugin_count(),
        a4.len() == t.4.plugin_count(),
    ensures
        t.names_are(a0 + a1 + a2 + a3 + a4) == (t.0.names_are(a0) && t.1.names_are(a1) && t.2.names_are(a2) && t.3.names_are(a3) && t.4.names_are(a4)),
{
    let cat = a0 + a1 + a2 + a3 + a4;
    assert(cat.subrange((0) as int, (0 + a0.len()) as int) =~= a0);
    assert(cat.subrange((a0.len()) as int, (a0.len() + a1.len()) as int) =~= a1);
    assert(cat.subrange((a0.len() + a1.len()) as int, (a0.len() + a1.len() + a2.len()) as int) =~= a2);
    assert(cat.subrange((a0.len() + a1.len() + a2.len()) as int, (a0.len() + a1.len() + a2.len() + a3.len()) as int) =~= a3);
    assert(cat.subrange((a0.len() + a1.len() + a2.len() + a3.len()) as int, (a0.len() + a1.len() + a2.len() + a3.len() + a4.len()) as int) =~= a4);
}

/// The names of a tuple of 6 plugin sets are the names of its elements, one after the other in tuple order:
/// names given for each element, joined in that order, are names of the tuple, and no
/// other joining is.
#[verifier::rlimit(100)]
#[verifier::spinoff_prover]
pub proof fn lemma_tuple6_names<M0, M1, M2, M3, M4, M5, P0: Plugins<M0>, P1: Plugins<M1>, P2: Plugins<M2>, P3: Plugins<M3>, P4: Plugins<M4>, P5: Plugins<M5>>(t: (P0, P1, P2, P3, P4, P5), a0: Seq<Seq<char>>, a1: Seq<Seq<char>>, a2: Seq<Seq<char>>, a3: Seq<Seq<char>>, a4: Seq<Seq<char>>, a5: Seq<Seq<char>>)
    requires
        a0.len() == t.0.plugin_count(),
        a1.len() == t.1.plugin_count(),
        a2.len() == t.2.plugin_count(),
        a3.len() == t.3.plugin_count(),
        a4.len() == t.4.plugin_count(),
        a5.len() == t.5.plugin_count(),
    ensures
        t.names_are(a0 + a1 + a2 + a3 + a4 + a5) == (t.0.names_are(a0) && t.1.names_are(a1) && t.2.names_are(a2) && t.3.names_are(a3) && t.4.names_are(a4) && t.5.names_are(a5)),
{
    let cat = a0 + a1 + a2 + a3 + a4 + a5;
    assert(cat.subrange((0) as int, (0 + a0.len()) as int) =~= a0);
    assert(cat.subrange((a0.len()) as int, (a0.len() + a1.len()) as int) =~= a1);
    assert(cat.subrange((a0.len() + a1.len()) as int, (a0.len() + a1.len() + a2.len()) as int) =~= a2);
    assert(cat.subrange((a0.len() + a1.len() + a2.len()) as int, (a0.len() + a1.len() + a2.len() + a3.len()) as int) =~= a3);
    assert(cat.subrange((a0.len() + a1.len() + a2.len() + a3.len()) as int, (a0.len() + a1.len() + a2.len() + a3.len() + a4.len()) as int) =~= a4);
    assert(cat.subrange((a0.len() + a1.len() + a2.len() + a3.len() + a4.len()) as int, (a0.len() + a1.len() + a2.len() + a3.len() + a4.len() + a5.len()) as int) =~= a5);
}

/// The names of a tuple of 7 plugin sets are the names of its elements, one after the other in tuple order:
/// names given for each element, joined in that order, are names of the tuple, and no
/// other joining is.
#[verifier::rlimit(100)]
#[verifier::spinoff_prover]
pub proof fn lemma_tuple7_names<M0, M1, M2, M3, M4, M5, M6, P0: Plugins<M0>, P1: Plugins<M1>, P2: Plugins<M2>, P3: Plugins<M3>, P4: Plugins<M4>, P5: Plugins<M5>, P6: Plugins<M6>>(t: (P0, P1, P2, P3, P4, P5, P6), a0: Seq<Seq<char>>, a1: Seq<Seq<char>>, a2: Seq<Seq<char>>, a3: Seq<Seq<char>>, a4: Seq<Seq<char>>, a5: Seq<Seq<char>>, a6: Seq<Seq<char>>)
    requires
        a0.len() == t.0.plugin_count(),
        a1.len() == t.1.plugin_count(),
        a2.len() == t.2.plugin_count(),
        a3.len() == t.3.plugin_count(),
        a4.len() == t.4.plugin_count(),
        a5.len() == t.5.plugin_count(),
        a6.len() == t.6.plugin_count(),
    ensures
        t.names_are(a0 + a1 + a2 + a3 + a4 + a5 + a6) == (t.0.names_are(a0) && t.1.names_are(a1) && t.2.names_are(a2) && t.3.names_are(a3) && t.4.names_are(a4) && t.5.names_are(a5) && t.6.names_are(a6)),
{
    let cat = a0 + a1 + a2 + a3 + a4 + a5 + a6;
    assert(cat.subrange((0) as int, (0 + a0.len()) as int) =~= a0);
    assert(cat.subrange((a0.len()) as int, (a0.len() + a1.len()) as int) =~= a1);
    assert(cat.subrange((a0.len() + a1.len()) as int, (a0.len() + a1.len() + a2.len()) as int) =~= a2);
    assert(cat.subrange((a0.len() + a1.len() + a2.len()) as int, (a0.len() + a1.len() + a2.len() + a3.len()) as int) =~= a3);
    assert(cat.subrange((a0.len() + a1.len() + a2.len() + a3.len()) as int, (a0.len() + a1.len() + a2.len() + a3.len() + a4.len()) as int) =~= a4);
    assert(cat.subrange((a0.len() + a1.len() + a2.len() + a3.len() + a4.len()) as int, (a0.len() + a1.len() + a2.len() + a3.len() + a4.len() + a5.len()) as int) =~= a5);
    assert(cat.subrange((a0.len() + a1.len() + a2.len() + a3.len() + a4.len() + a5.len()) as int, (a0.len() + a1.len() + a2.len() + a3.len() + a4.len() + a5.len() + a6.len()) as int) =~= a6);
}

/// The names of a tuple of 8 plugin sets are the names of its elements, one after the other in tuple order:
/// names given for each element, joined in that order, are names of the tuple, and no
/// other joining is.
#[verifier::rlimit(100)]
#[verifier::spinoff_prover]
pub proof fn lemma_tuple8_names<M0, M1, M2, M3, M4, M5, M6, M7, P0: Plugins<M0>, P1: Plugins<M1>, P2: Plugins<M2>, P3: Plugins<M3>, P4: Plugins<M4>, P5: Plugins<M5>, P6: Plugins<M6>, P7: Plugins<M7>>(t: (P0, P1, P2, P3, P4, P5, P6, P7), a0: Seq<Seq<char>>, a1: Seq<Seq<char>>, a2: Seq<Seq<char>>, a3: Seq<Seq<char>>, a4: Seq<Seq<char>>, a5: Seq<Seq<char>>, a6: Seq<Seq<char>>, a7: Seq<Seq<char>>)
    requires
        a0.len() == t.0.plugin_count(),
        a1.len() == t.1.plugin_count(),
        a2.len() == t.2.plugin_count(),
        a3.len() == t.3.plugin_count(),
        a4.len() == t.4.plugin_count(),
        a5.len() == t.5.plugin_count(),
        a6.len() == t.6.plugin_count(),
        a7.len() == t.7.plugin_count(),
    ensures
        t.names_are(a0 + a1 + a2 + a3 + a4 + a5 + a6 + a7) == (t.0.names_are(a0) && t.1.names_are(a1) && t.2.names_are(a2) && t.3.names_are(a3) && t.4.names_are(a4) && t.5.names_are(a5) && t.6.names_are(a6) && t.7.names_are(a7)),
{
    let cat = a0 + a1 + a2 + a3 + a4 + a5 + a6 + a7;
    assert(cat.subrange((0) as int, (0 + a0.len()) as int) =~= a0);
    assert(cat.subrange((a0.len()) as int, (a0.len() + a1.len()) as int) =~= a1);
    assert(cat.subrange((a0.len() + a1.len()) as int, (a0.len() + a1.len() + a2.len()) as int) =~= a2);
    assert(cat.subrange((a0.len() + a1.len() + a2.len()) as int, (a0.len() + a1.len() + a2.len() + a3.len()) as int) =~= a3);
    assert(cat.subrange((a0.len() + a1.len() + a2.len() + a3.len()) as int, (a0.len() + a1.len() + a2.len() + a3.len() + a4.len()) as int) =~= a4);
    assert(cat.subrange((a0.len() + a1.len() + a2.len() + a3.len() + a4.len()) as int, (a0.len() + a1.len() + a2.len() + a3.len() + a4.len() + a5.len()) as int) =~= a5);
    assert(cat.subrange((a0.len() + a1.len() + a2.len() + a3.len() + a4.len() + a5.len()) as int, (a0.len() + a1.len() + a2.len() + a3.len() + a4.len() + a5.len() + a6.len()) as int) =~= a6);
    assert(cat.subrange((a0.len() + a1.len() + a2.len() + a3.len() + a4.len() + a5.len() + a6.len()) as int, (a0.len() + a1.len() + a2.len() + a3.len() + a4.len() + a5.len() + a6.len() + a7.len()) as int) =~= a7);
}

/// The names of a tuple of 9 plugin sets are the names of its elements, one after the other in tuple order:
/// names given for each element, joined in that order, are names of the tuple, and no
/// other joining is.
#[verifier::rlimit(100)]
#[verifier::spinoff_prover]
pub proof fn lemma_tuple9_names<M0, M1, M2, M3, M4, M5, M6, M7, M8, P0: Plugins<M0>, P1: Plugins<M1>, P2: Plugins<M2>, P3: Plugins<M3>, P4: Plugins<M4>, P5: Plugins<M5>, P6: Plugins<M6>, P7: Plugins<M7>, P8: Plugins<M8>>(t: (P0, P1, P2, P3, P4, P5, P6, P7, P8), a0: Seq<Seq<char>>, a1: Seq<Seq<char>>, a2: Seq<Seq<char>>, a3: Seq<Seq<char>>, a4: Seq<Seq<char>>, a5: Seq<Seq<char>>, a6: Seq<Seq<char>>, a7: Seq<Seq<char>>, a8: Seq<Seq<char>>)
    requires
        a0.len() == t.0.plugin_count(),
        a1.len() == t.1.plugin_count(),
        a2.len() == t.2.plugin_count(),
        a3.len() == t.3.plugin_count(),
        a4.len() == t.4.plugin_count(),
        a5.len() == t.5.plugin_count(),
        a6.len() == t.6.plugin_count(),
        a7.len() == t.7.plugin_count(),
        a8.len() == t.8.plugin_count(),
    ensures
        t.names_are(a0 + a1 + a2 + a3 + a4 + a5 + a6 + a7 + a8) == (t.0.names_are(a0) && t.1.names_are(a1) && t.2.names_are(a2) && t.3.names_are(a3) && t.4.names_are(a4) && t.5.names_are(a5) && t.6.names_are(a6) && t.7.names_are(a7) && t.8.names_are(a8)),
{
    let cat = a0 + a1 + a2 + a3 + a4 + a5 + a6 + a7 + a8;
    assert(cat.subrange((0) as int, (0 + a0.len()) as int) =~= a0);
    assert(cat.subrange((a0.len()) as int, (a0.len() + a1.len()) as int) =~= a1);
    assert(cat.subrange((a0.len() + a1.len()) as int, (a0.len() + a1.len() + a2.len()) as int) =~= a2);
    assert(cat.subrange((a0.len() + a1.len() + a2.len()) as int, (a0.len() + a1.len() + a2.len() + a3.len()) as int) =~= a3);
    assert(cat.subrange((a0.len() + a1.len() + a2.len() + a3.len()) as int, (a0.len() + a1.len() + a2.len() + a3.len() + a4.len()) as int) =~= a4);
    assert(cat.subrange((a0.len() + a1.len() + a2.len() + a3.len() + a4.len()) as int, (a0.len() + a1.len() + a2.len() + a3.len() + a4.len() + a5.len()) as int) =~= a5);
    assert(cat.subrange((a0.len() + a1.len() + a2.len() + a3.len() + a4.len() + a5.len()) as int, (a0.len() + a1.len() + a2.len() + a3.len() + a4.len() + a5.len() + a6.len()) as int) =~= a6);
    assert(cat.subrange((a0.len() + a1.len() + a2.len() + a3.len() + a4.len() + a5.len() + a6.len()) as int, (a0.len() + a1.len() + a2.len() + a3.len() + a4.len() + a5.len() + a6.len() + a7.len()) as int) =~= a7);
    assert(cat.subrange((a0.len() + a1.len() + a2.len() + a3.len() + a4.len() + a5.len() + a6.len() + a7.len()) as int, (a0.len() + a1.len() + a2.len() + a3.len() + a4.len() + a5.len() + a6.len() + a7.len() + a8.len()) as int) =~= a8);
}

/// The names of a tuple of 10 plugin sets are the names of its elements, one after the other in tuple order:
/// names given for each element, joined in that order, are names of the tuple, and no
/// other joining is.
#[verifier::rlimit(100)]
#[verifier::spinoff_prover]
pub proof fn lemma_tuple10_names<M0, M1, M2, M3, M4, M5, M6, M7, M8, M9, P0: Plugins<M0>, P1: Plugins<M1>, P2: Plugins<M2>, P3: Plugins<M3>, P4: Plugins<M4>, P5: Plugins<M5>, P6: Plugins<M6>, P7: Plugins<M7>, P8: Plugins<M8>, P9: Plugins<M9>>(t: (P0, P1, P2, P3, P4, P5, P6, P7, P8, P9), a0: Seq<Seq<char>>, a1: Seq<Seq<char>>, a2: Seq<Seq<char>>, a3: Seq<Seq<char>>, a4: Seq<Seq<char>>, a5: Seq<Seq<char>>, a6: Seq<Seq<char>>, a7: Seq<Seq<char>>, a8: Seq<Seq<char>>, a9: Seq<Seq<char>>)
    requires
        a0.len() == t.0.plugin_count(),
        a1.len() == t.1.plugin_count(),
        a2.len() == t.2.plugin_count(),
        a3.len() == t.3.plugin_count(),
        a4.len() == t.4.plugin_count(),
        a5.len() == t.5.plugin_count(),
        a6.len() == t.6.plugin_count(),
        a7.len() == t.7.plugin_count(),
        a8.len() == t.8.plugin_count(),
        a9.len() == t.9.plugin_count(),
    ensures
        t.names_are(a0 + a1 + a2 + a3 + a4 + a5 + a6 + a7 + a8 + a9) == (t.0.names_are(a0) && t.1.names_are(a1) && t.2.names_are(a2) && t.3.names_are(a3) && t.4.names_are(a4) && t.5.names_are(a5) && t.6.names_are(a6) && t.7.names_are(a7) && t.8.names_are(a8) && t.9.names_are(a9)),
{
    let cat = a0 + a1 + a2 + a3 + a4 + a5 + a6 + a7 + a8 + a9;
    assert(cat.subrange((0) as int, (0 + a0.len()) as int) =~= a0);
    assert(cat.subrange((a0.len()) as int, (a0.len() + a1.len()) as int) =~= a1);
    assert(cat.subrange((a0.len() + a1.len()) as int, (a0.len() + a1.len() + a2.len()) as int) =~= a2);
    assert(cat.subrange((a0.len() + a1.len() + a2.len()) as int, (a0.len() + a1.len() + a2.len() + a3.len()) as int) =~= a3);
    assert(cat.subrange((a0.len() + a1.len() + a2.len() + a3.len()) as int, (a0.len() + a1.len() + a2.len() + a3.len() + a4.len()) as int) =~= a4);
    assert(cat.subrange((a0.len() + a1.len() + a2.len() + a3.len() + a4.len()) as int, (a0.len() + a1.len() + a2.len() + a3.len() + a4.len() + a5.len()) as int) =~= a5);
    assert(cat.subrange((a0.len() + a1.len() + a2.len() + a3.len() + a4.len() + a5.len()) as int, (a0.len() + a1.len() + a2.len() + a3.len() + a4.len() + a5.len() + a6.len()) as int) =~= a6);
    assert(cat.subrange((a0.len() + a1.len() + a2.len() + a3.len() + a4.len() + a5.len() + a6.len()) as int, (a0.len() + a1.len() + a2.len() + a3.len() + a4.len() + a5.len() + a6.len() + a7.len()) as int) =~= a7);
    assert(cat.subrange((a0.len() + a1.len() + a2.len() + a3.len() + a4.len() + a5.len() + a6.len() + a7.len()) as int, (a0.len() + a1.len() + a2.len() + a3.len() + a4.len() + a5.len() + a6.len() + a7.len() + a8.len()) as int) =~= a8);
    assert(cat.subrange((a0.len() + a1.len() + a2.len() + a3.len() + a4.len() + a5.len() + a6.len() + a7.len() + a8.len()) as int, (a0.len() + a1.len() + a2.len() + a3.len() + a4.len() + a5.len() + a6.len() + a7.len() + a8.len() + a9.len()) as int) =~= a9);
}

/// The names of a tuple of 11 plugin sets are the names of its elements, one after the other in tuple order:
/// names given for each element, joined in that order, are names of the tuple, and no
/// other joining is.
#[verifier::rlimit(100)]
#[verifier::spinoff_prover]
pub proof fn lemma_tuple11_names<M0, M1, M2, M3, M4, M5, M6, M7, M8, M9, M10, P0: Plugins<M0>, P1: Plugins<M1>, P2: Plugins<M2>, P3: Plugins<M3>, P4: Plugins<M4>, P5: Plugins<M5>, P6: Plugins<M6>, P7: Plugins<M7>, P8: Plugins<M8>, P9: Plugins<M9>, P10: Plugins<M10>>(t: (P0, P1, P2, P3, P4, P5, P6, P7, P8, P9, P10), a0: Seq<Seq<char>>, a1: Seq<Seq<char>>, a2: Seq<Seq<char>>, a3: Seq<Seq<char>>, a4: Seq<Seq<char>>, a5: Seq<Seq<char>>, a6: Seq<Seq<char>>, a7: Seq<Seq<char>>, a8: Seq<Seq<char>>, a9: Seq<Seq<char>>, a10: Seq<Seq<char>>)
    requires
        a0.len() == t.0.plugin_count(),
        a1.len() == t.1.plugin_count(),
        a2.len() == t.2.plugin_count(),
        a3.len() == t.3.plugin_count(),
        a4.len() == t.4.plugin_count(),
        a5.len() == t.5.plugin_count(),
        a6.len() == t.6.plugin_count(),
        a7.len() == t.7.plugin_count(),
        a8.len() == t.8.plugin_count(),
        a9.len() == t.9.plugin_count(),
        a10.len() == t.10.plugin_count(),
    ensures
        t.names_are(a0 + a1 + a2 + a3 + a4 + a5 + a6 + a7 + a8 + a9 + a10) == (t.0.names_are(a0) && t.1.names_are(a1) && t.2.names_are(a2) && t.3.names_are(a3) && t.4.names_are(a4) && t.5.names_are(a5) && t.6.names_are(a6) && t.7.names_are(a7) && t.8.names_are(a8) && t.9.names_are(a9) && t.10.names_are(a10)),
{
    let cat = a0 + a1 + a2 + a3 + a4 + a5 + a6 + a7 + a8 + a9 + a10;
    assert(cat.subrange((0) as int, (0 + a0.len()) as int) =~= a0);
    assert(cat.subrange((a0.len()) as int, (a0.len() + a1.len()) as int) =~= a1);
    assert(cat.subrange((a0.len() + a1.len()) as int, (a0.len() + a1.len() + a2.len()) as int) =~= a2);
    assert(cat.subrange((a0.len() + a1.len() + a2.len()) as int, (a0.len() + a1.len() + a2.len() + a3.len()) as int) =~= a3);
    assert(cat.subrange((a0.len() + a1.len() + a2.len() + a3.len()) as int, (a0.len() + a1.len() + a2.len() + a3.len() + a4.len()) as int) =~= a4);
    assert(cat.subrange((a0.len() + a1.len() + a2.len() + a3.len() + a4.len()) as int, (a0.len() + a1.len() + a2.len() + a3.len() + a4.len() + a5.len()) as int) =~= a5);
    assert(cat.subrange((a0.len() + a1.len() + a2.len() + a3.len() + a4.len() + a5.len()) as int, (a0.len() + a1.len() + a2.len() + a3.len() + a4.len() + a5.len() + a6.len()) as int) =~= a6);
    assert(cat.subrange((a0.len() + a1.len() + a2.len() + a3.len() + a4.len() + a5.len() + a6.len()) as int, (a0.len() + a1.len() + a2.len() + a3.len() + a4.len() + a5.len() + a6.len() + a7.len()) as int) =~= a7);
    assert(cat.subrange((a0.len() + a1.len() + a2.len() + a3.len() + a4.len() + a5.len() + a6.len() + a7.len()) as int, (a0.len() + a1.len() + a2.len() + a3.len() + a4.len() + a5.len() + a6.len() + a7.len() + a8.len()) as int) =~= a8);
    assert(cat.subrange((a0.len() + a1.len() + a2.len() + a3.len() + a4.len() + a5.len() + a6.len() + a7.len() + a8.len()) as int, (a0.len() + a1.len() + a2.len() + a3.len() + a4.len() + a5.len() + a6.len() + a7.len() + a8.len() + a9.len()) as int) =~= a9);
    assert(cat.subrange((a0.len() + a1.len() + a2.len() + a3.len() + a4.len() + a5.len() + a6.len() + a7.len() + a8.len() + a9.len()) as int, (a0.len() + a1.len() + a2.len() + a3.len() + a4.len() + a5.len() + a6.len() + a7.len() + a8.len() + a9.len() + a10.len()) as int) =~= a10);
}

/// The names of a tuple of 12 plugin sets are the names of its elements, one after the other in tuple order:
/// names given for each element, joined in that order, are names of the tuple, and no
/// other joining is.
#[verifier::rlimit(100)]
#[verifier::spinoff_prover]
pub proof fn lemma_tuple12_names<M0, M1, M2, M3, M4, M5, M6, M7, M8, M9, M10, M11, P0: Plugins<M0>, P1: Plugins<M1>, P2: Plugins<M2>, P3: Plugins<M3>, P4: Plugins<M4>, P5: Plugins<M5>, P6: Plugins<M6>, P7: Plugins<M7>, P8: Plugins<M8>, P9: Plugins<M9>, P10: Plugins<M10>, P11: Plugins<M11>>(t: (P0, P1, P2, P3, P4, P5, P6, P7, P8, P9, P10, P11), a0: Seq<Seq<char>>, a1: Seq<Seq<char>>, a2: Seq<Seq<char>>, a3: Seq<Seq<char>>, a4: Seq<Seq<char>>, a5: Seq<Seq<char>>, a6: Seq<Seq<char>>, a7: Seq<Seq<char>>, a8: Seq<Seq<char>>, a9: Seq<Seq<char>>, a10: Seq<Seq<char>>, a11: Seq<Seq<char>>)
    requires
        a0.len() == t.0.plugin_count(),
        a1.len() == t.1.plugin_count(),
        a2.len() == t.2.plugin_count(),
        a3.len() == t.3.plugin_count(),
        a4.len() == t.4.plugin_count(),
        a5.len() == t.5.plugin_count(),
        a6.len() == t.6.plugin_count(),
        a7.len() == t.7.plugin_count(),
        a8.len() == t.8.plugin_count(),
        a9.len() == t.9.plugin_count(),
        a10.len() == t.10.plugin_count(),
        a11.len() == t.11.plugin_count(),
    ensures
        t.names_are(a0 + a1 + a2 + a3 + a4 + a5 + a6 + a7 + a8 + a9 + a10 + a11) == (t.0.names_are(a0) && t.1.names_are(a1) && t.2.names_are(a2) && t.3.names_are(a3) && t.4.names_are(a4) && t.5.names_are(a5) && t.6.names_are(a6) && t.7.names_are(a7) && t.8.names_are(a8) && t.9.names_are(a9) && t.10.names_are(a10) && t.11.names_are(a11)),
{
    let cat = a0 + a1 + a2 + a3 + a4 + a5 + a6 + a7 + a8 + a9 + a10 + a11;
    assert(cat.subrange((0) as int, (0 + a0.len()) as int) =~= a0);
    assert(cat.subrange((a0.len()) as int, (a0.len() + a1.len()) as int) =~= a1);
    assert(cat.subrange((a0.len() + a1.len()) as int, (a0.len() + a1.len() + a2.len()) as int) =~= a2);
    assert(cat.subrange((a0.len() + a1.len() + a2.len()) as int, (a0.len() + a1.len() + a2.len() + a3.len()) as int) =~= a3);
    assert(cat.subrange((a0.len() + a1.len() + a2.len() + a3.len()) as int, (a0.len() + a1.len() + a2.len() + a3.len() + a4.len()) as int) =~= a4);
    assert(cat.subrange((a0.len() + a1.len() + a2.len() + a3.len() + a4.len()) as int, (a0.len() + a1.len() + a2.len() + a3.len() + a4.len() + a5.len()) as int) =~= a5);
    assert(cat.subrange((a0.len() + a1.len() + a2.len() + a3.len() + a4.len() + a5.len()) as int, (a0.len() + a1.len() + a2.len() + a3.len() + a4.len() + a5.len() + a6.len()) as int) =~= a6);
    assert(cat.subrange((a0.len() + a1.len() + a2.len() + a3.len() + a4.len() + a5.len() + a6.len()) as int, (a0.len() + a1.len() + a2.len() + a3.len() + a4.len() + a5.len() + a6.len() + a7.len()) as int) =~= a7);
    assert(cat.subrange((a0.len() + a1.len() + a2.len() + a3.len() + a4.len() + a5.len() + a6.len() + a7.len()) as int, (a0.len() + a1.len() + a2.len() + a3.len() + a4.len() + a5.len() + a6.len() + a7.len() + a8.len()) as int) =~= a8);
    assert(cat.subrange((a0.len() + a1.len() + a2.len() + a3.len() + a4.len() + a5.len() + a6.len() + a7.len() + a8.len()) as int, (a0.len() + a1.len() + a2.len() + a3.len() + a4.len() + a5.len() + a6.len() + a7.len() + a8.len() + a9.len()) as int) =~= a9);
    assert(cat.subrange((a0.len() + a1.len() + a2.len() + a3.len() + a4.len() + a5.len() + a6.len() + a7.len() + a8.len() + a9.len()) as int, (a0.len() + a1.len() + a2.len() + a3.len() + a4.len() + a5.len() + a6.len() + a7.len() + a8.len() + a9.len() + a10.len()) as int) =~= a10);
    assert(cat.subrange((a0.len() + a1.len() + a2.len() + a3.len() + a4.len() + a5.len() + a6.len() + a7.len() + a8.len() + a9.len() + a10.len()) as int, (a0.len() + a1.len() + a2.len() + a3.len() + a4.len() + a5.len() + a6.len() + a7.len() + a8.len() + a9.len() + a10.len() + a11.len()) as int) =~= a11);
}

/// The names of a tuple of 13 plugin sets are the names of its elements, one after the other in tuple order:
/// names given for each element, joined in that order, are names of the tuple, and no
/// other joining is.
#[verifier::rlimit(100)]
#[verifier::spinoff_prover]
pub proof fn lemma_tuple13_names<M0, M1, M2, M3, M4, M5, M6, M7, M8, M9, M10, M11, M12, P0: Plugins<M0>, P1: Plugins<M1>, P2: Plugins<M2>, P3: Plugins<M3>, P4: Plugins<M4>, P5: Plugins<M5>, P6: Plugins<M6>, P7: Plugins<M7>, P8: Plugins<M8>, P9: Plugins<M9>, P10: Plugins<M10>, P11: Plugins<M11>, P12: Plugins<M12>>(t: (P0, P1, P2, P3, P4, P5, P6, P7, P8, P9, P10, P11, P12), a0: Seq<Seq<char>>, a1: Seq<Seq<char>>, a2: Seq<Seq<char>>, a3: Seq<Seq<char>>, a4: Seq<Seq<char>>, a5: Seq<Seq<char>>, a6: Seq<Seq<char>>, a7: Seq<Seq<char>>, a8: Seq<Seq<char>>, a9: Seq<Seq<char>>, a10: Seq<Seq<char>>, a11: Seq<Seq<char>>, a12: Seq<Seq<char>>)
    requires
        a0.len() == t.0.plugin_count(),
        a1.len() == t.1.plugin_count(),
        a2.len() == t.2.plugin_count(),
        a3.len() == t.3.plugin_count(),
        a4.len() == t.4.plugin_count(),
        a5.len() == t.5.plugin_count(),
        a6.len() == t.6.plugin_count(),
        a7.len() == t.7.plugin_count(),
        a8.len() == t.8.plugin_count(),
        a9.len() == t.9.plugin_count(),
        a10.len() == t.10.plugin_count(),
        a11.len() == t.11.plugin_count(),
        a12.len() == t.12.plugin_count(),
    ensures
        t.names_are(a0 + a1 + a2 + a3 + a4 + a5 + a6 + a7 + a8 + a9 + a10 + a11 + a12) == (t.0.names_are(a0) && t.1.names_are(a1) && t.2.names_are(a2) && t.3.names_are(a3) && t.4.names_are(a4) && t.5.names_are(a5) && t.6.names_are(a6) && t.7.names_are(a7) && t.8.names_are(a8) && t.9.names_are(a9) && t.10.names_are(a10) && t.11.names_are(a11) && t.12.names_are(a12)),
{
    let cat = a0 + a1 + a2 + a3 + a4 + a5 + a6 + a7 + a8 + a9 + a10 + a11 + a12;
    assert(cat.subrange((0) as int, (0 + a0.len()) as int) =~= a0);
    assert(cat.subrange((a0.len()) as int, (a0.len() + a1.len()) as int) =~= a1);
    assert(cat.subrange((a0.len() + a1.len()) as int, (a0.len() + a1.len() + a2.len()) as int) =~= a2);
    assert(cat.subrange((a0.len() + a1.len() + a2.len()) as int, (a0.len() + a1.len() + a2.len() + a3.len()) as int) =~= a3);
    assert(cat.subrange((a0.len() + a1.len() + a2.len() + a3.len()) as int, (a0.len() + a1.len() + a2.len() + a3.len() + a4.len()) as int) =~= a4);
    assert(cat.subrange((a0.len() + a1.len() + a2.len() + a3.len() + a4.len()) as int, (a0.len() + a1.len() + a2.len() + a3.len() + a4.len() + a5.len()) as int) =~= a5);
    assert(cat.subrange((a0.len() + a1.len() + a2.len() + a3.len() + a4.len() + a5.len()) as int, (a0.len() + a1.len() + a2.len() + a3.len() + a4.len() + a5.len() + a6.len()) as int) =~= a6);
    assert(cat.subrange((a0.len() + a1.len() + a2.len() + a3.len() + a4.len() + a5.len() + a6.len()) as int, (a0.len() + a1.len() + a2.len() + a3.len() + a4.len() + a5.len() + a6.len() + a7.len()) as int) =~= a7);
    assert(cat.subrange((a0.len() + a1.len() + a2.len() + a3.len() + a4.len() + a5.len() + a6.len() + a7.len()) as int, (a0.len() + a1.len() + a2.len() + a3.len() + a4.len() + a5.len() + a6.len() + a7.len() + a8.len()) as int) =~= a8);
    assert(cat.subrange((a0.len() + a1.len() + a2.len() + a3.len() + a4.len() + a5.len() + a6.len() + a7.len() + a8.len()) as int, (a0.len() + a1.len() + a2.len() + a3.len() + a4.len() + a5.len() + a6.len() + a7.len() + a8.len() + a9.len()) as int) =~= a9);
    assert(cat.subrange((a0.len() + a1.len() + a2.len() + a3.len() + a4.len() + a5.len() + a6.len() + a7.len() + a8.len() + a9.len()) as int, (a0.len() + a1.len() + a2.len() + a3.len() + a4.len() + a5.len() + a6.len() + a7.len() + a8.len() + a9.len() + a10.len()) as int) =~= a10);
    assert(cat.subrange((a0.len() + a1.len() + a2.len() + a3.len() + a4.len() + a5.len() + a6.len() + a7.len() + a8.len() + a9.len() + a10.len()) as int, (a0.len() + a1.len() + a2.len() + a3.len() + a4.len() + a5.len() + a6.len() + a7.len() + a8.len() + a9.len() + a10.len() + a11.len()) as int) =~= a11);
    assert(cat.subrange((a0.len() + a1.len() + a2.len() + a3.len() + a4.len() + a5.len() + a6.len() + a7.len() + a8.len() + a9.len() + a10.len() + a11.len()) as int, (a0.len() + a1.len() + a2.len() + a3.len() + a4.len() + a5.len() + a6.len() + a7.len() + a8.len() + a9.len() + a10.len() + a11.len() + a12.len()) as int) =~= a12);
}

/// The names of a tuple of 14 plugin sets are the names of its elements, one after the other in tuple order:
/// names given for each element, joined in that order, are names of the tuple, and no
/// other joining is.
#[verifier::rlimit(100)]
#[verifier::spinoff_prover]
pub proof fn lemma_tuple14_names<M0, M1, M2, M3, M4, M5, M6, M7, M8, M9, M10, M11, M12, M13, P0: Plugins<M0>, P1: Plugins<M1>, P2: Plugins<M2>, P3: Plugins<M3>, P4: Plugins<M4>, P5: Plugins<M5>, P6: Plugins<M6>, P7: Plugins<M7>, P8: Plugins<M8>, P9: Plugins<M9>, P10: Plugins<M10>, P11: Plugins<M11>, P12: Plugins<M12>, P13: Plugins<M13>>(t: (P0, P1, P2, P3, P4, P5, P6, P7, P8, P9, P10, P11, P12, P13), a0: Seq<Seq<char>>, a1: Seq<Seq<char>>, a2: Seq<Seq<char>>, a3: Seq<Seq<char>>, a4: Seq<Seq<char>>, a5: Seq<Seq<char>>, a6: Seq<Seq<char>>, a7: Seq<Seq<char>>, a8: Seq<Seq<char>>, a9: Seq<Seq<char>>, a10: Seq<Seq<char>>, a11: Seq<Seq<char>>, a12: Seq<Seq<char>>, a13: Seq<Seq<char>>)
    requires
        a0.len() == t.0.plugin_count(),
        a1.len() == t.1.plugin_count(),
        a2.len() == t.2.plugin_count(),
        a3.len() == t.3.plugin_count(),
        a4.len() == t.4.plugin_count(),
        a5.len() == t.5.plugin_count(),
        a6.len() == t.6.plugin_count(),
        a7.len() == t.7.plugin_count(),
        a8.len() == t.8.plugin_count(),
        a9.len() == t.9.plugin_count(),
        a10.len() == t.10.plugin_count(),
        a11.len() == t.11.plugin_count(),
        a12.len() == t.12.plugin_count(),
        a13.len() == t.13.plugin_count(),
    ensures
        t.names_are(a0 + a1 + a2 + a3 + a4 + a5 + a6 + a7 + a8 + a9 + a10 + a11 + a12 + a13) == (t.0.names_are(a0) && t.1.names_are(a1) && t.2.names_are(a2) && t.3.names_are(a3) && t.4.names_are(a4) && t.5.names_are(a5) && t.6.names_are(a6) && t.7.names_are(a7) && t.8.names_are(a8) && t.9.names_are(a9) && t.10.names_are(a10) && t.11.names_are(a11) && t.12.names_are(a12) && t.13.names_are(a13)),
{
    let cat = a0 + a1 + a2 + a3 + a4 + a5 + a6 + a7 + a8 + a9 + a10 + a11 + a12 + a13;
    assert(cat.subrange((0) as int, (0 + a0.len()) as int) =~= a0);
    assert(cat.subrange((a0.len()) as int, (a0.len() + a1.len()) as int) =~= a1);
    assert(cat.subrange((a0.len() + a1.len()) as int, (a0.len() + a1.len() + a2.len()) as int) =~= a2);
    assert(cat.subrange((a0.len() + a1.len() + a2.len()) as int, (a0.len() + a1.len() + a2.len() + a3.len()) as int) =~= a3);
    assert(cat.subrange((a0.len() + a1.len() + a2.len() + a3.len()) as int, (a0.len() + a1.len() + a2.len() + a3.len() + a4.len()) as int) =~= a4);
    assert(cat.subrange((a0.len() + a1.len() + a2.len() + a3.len() + a4.len()) as int, (a0.len() + a1.len() + a2.len() + a3.len() + a4.len() + a5.len()) as int) =~= a5);
    assert(cat.subrange((a0.len() + a1.len() + a2.len() + a3.len() + a4.len() + a5.len()) as int, (a0.len() + a1.len() + a2.len() + a3.len() + a4.len() + a5.len() + a6.len()) as int) =~= a6);
    assert(cat.subrange((a0.len() + a1.len() + a2.len() + a3.len() + a4.len() + a5.len() + a6.len()) as int, (a0.len() + a1.len() + a2.len() + a3.len() + a4.len() + a5.len() + a6.len() + a7.len()) as int) =~= a7);
    assert(cat.subrange((a0.len() + a1.len() + a2.len() + a3.len() + a4.len() + a5.len() + a6.len() + a7.len()) as int, (a0.len() + a1.len() + a2.len() + a3.len() + a4.len() + a5.len() + a6.len() + a7.len() + a8.len()) as int) =~= a8);
    assert(cat.subrange((a0.len() + a1.len() + a2.len() + a3.len() + a4.len() + a5.len() + a6.len() + a7.len() + a8.len()) as int, (a0.len() + a1.len() + a2.len() + a3.len() + a4.len() + a5.len() + a6.len() + a7.len() + a8.len() + a9.len()) as int) =~= a9);
    assert(cat.subrange((a0.len() + a1.len() + a2.len() + a3.len() + a4.len() + a5.len() + a6.len() + a7.len() + a8.len() + a9.len()) as int, (a0.len() + a1.len() + a2.len() + a3.len() + a4.len() + a5.len() + a6.len() + a7.len() + a8.len() + a9.len() + a10.len()) as int) =~= a10);
    assert(cat.subrange((a0.len() + a1.len() + a2.len() + a3.len() + a4.len() + a5.len() + a6.len() + a7.len() + a8.len() + a9.len() + a10.len()) as int, (a0.len() + a1.len() + a2.len() + a3.len() + a4.len() + a5.len() + a6.len() + a7.len() + a8.len() + a9.len() + a10.len() + a11.len()) as int) =~= a11);
    assert(cat.subrange((a0.len() + a1.len() + a2.len() + a3.len() + a4.len() + a5.len() + a6.len() + a7.len() + a8.len() + a9.len() + a10.len() + a11.len()) as int, (a0.len() + a1.len() + a2.len() + a3.len() + a4.len() + a5.len() + a6.len() + a7.len() + a8.len() + a9.len() + a10.len() + a11.len() + a12.len()) as int) =~= a12);
    assert(cat.subrange((a0.len() + a1.len() + a2.len() + a3.len() + a4.len() + a5.len() + a6.len() + a7.len() + a8.len() + a9.len() + a10.len() + a11.len() + a12.len()) as int, (a0.len() + a1.len() + a2.len() + a3.len() + a4.len() + a5.len() + a6.len() + a7.len() + a8.len() + a9.len() + a10.len() + a11.len() + a12.len() + a13.len()) as int) =~= a13);
}

/// The names of a tuple of 15 plugin sets are the names of its elements, one after the other in tuple order:
/// names given for each element, joined in that order, are names of the tuple, and no
/// other joining is.
#[verifier::rlimit(100)]
#[verifier::spinoff_prover]
pub proof fn lemma_tuple15_names<M0, M1, M2, M3, M4, M5, M6, M7, M8, M9, M10, M11, M12, M13, M14, P0: Plugins<M0>, P1: Plugins<M1>, P2: Plugins<M2>, P3: Plugins<M3>, P4: Plugins<M4>, P5: Plugins<M5>, P6: Plugins<M6>, P7: Plugins<M7>, P8: Plugins<M8>, P9: Plugins<M9>, P10: Plugins<M10>, P11: Plugins<M11>, P12: Plugins<M12>, P13: Plugins<M13>, P14: Plugins<M14>>(t: (P0, P1, P2, P3, P4, P5, P6, P7, P8, P9, P10, P11, P12, P13, P14), a0: Seq<Seq<char>>, a1: Seq<Seq<char>>, a2: Seq<Seq<char>>, a3: Seq<Seq<char>>, a4: Seq<Seq<char>>, a5: Seq<Seq<char>>, a6: Seq<Seq<char>>, a7: Seq<Seq<char>>, a8: Seq<Seq<char>>, a9: Seq<Seq<char>>, a10: Seq<Seq<char>>, a11: Seq<Seq<char>>, a12: Seq<Seq<char>>, a13: Seq<Seq<char>>, a14: Seq<Seq<char>>)
    requires
        a0.len() == t.0.plugin_count(),
        a1.len() == t.1.plugin_count(),
        a2.len() == t.2.plugin_count(),
        a3.len() == t.3.plugin_count(),
        a4.len() == t.4.plugin_count(),
        a5.len() == t.5.plugin_count(),
        a6.len() == t.6.plugin_count(),
        a7.len() == t.7.plugin_count(),
        a8.len() == t.8.plugin_count(),
        a9.len() == t.9.plugin_count(),
        a10.len() == t.10.plugin_count(),
        a11.len() == t.11.plugin_count(),
        a12.len() == t.12.plugin_count(),
        a13.len() == t.13.plugin_count(),
        a14.len() == t.14.plugin_count(),
    ensures
        t.names_are(a0 + a1 + a2 + a3 + a4 + a5 + a6 + a7 + a8 + a9 + a10 + a11 + a12 + a13 + a14) == (t.0.names_are(a0) && t.1.names_are(a1) && t.2.names_are(a2) && t.3.names_are(a3) && t.4.names_are(a4) && t.5.names_are(a5) && t.6.names_are(a6) && t.7.names_are(a7) && t.8.names_are(a8) && t.9.names_are(a9) && t.10.names_are(a10) && t.11.names_are(a11) && t.12.names_are(a12) && t.13.names_are(a13) && t.14.names_are(a14)),
{
    let cat = a0 + a1 + a2 + a3 + a4 + a5 + a6 + a7 + a8 + a9 + a10 + a11 + a12 + a13 + a14;
    assert(cat.subrange((0) as int, (0 + a0.len()) as int) =~= a0);
    assert(cat.subrange((a0.len()) as int, (a0.len() + a1.len()) as int) =~= a1);
    assert(cat.subrange((a0.len() + a1.len()) as int, (a0.len() + a1.len() + a2.len()) as int) =~= a2);
    assert(cat.subrange((a0.len() + a1.len() + a2.len()) as int, (a0.len() + a1.len() + a2.len() + a3.len()) as int) =~= a3);
    assert(cat.subrange((a0.len() + a1.len() + a2.len() + a3.len()) as int, (a0.len() + a1.len() + a2.len() + a3.len() + a4.len()) as int) =~= a4);
    assert(cat.subrange((a0.len() + a1.len() + a2.len() + a3.len() + a4.len()) as int, (a0.len() + a1.len() + a2.len() + a3.len() + a4.len() + a5.len()) as int) =~= a5);
    assert(cat.subrange((a0.len() + a1.len() + a2.len() + a3.len() + a4.len() + a5.len()) as int, (a0.len() + a1.len() + a2.len() + a3.len() + a4.len() + a5.len() + a6.len()) as int) =~= a6);
    assert(cat.subrange((a0.len() + a1.len() + a2.len() + a3.len() + a4.len() + a5.len() + a6.len()) as int, (a0.len() + a1.len() + a2.len() + a3.len() + a4.len() + a5.len() + a6.len() + a7.len()) as int) =~= a7);
    assert(cat.subrange((a0.len() + a1.len() + a2.len() + a3.len() + a4.len() + a5.len() + a6.len() + a7.len()) as int, (a0.len() + a1.len() + a2.len() + a3.len() + a4.len() + a5.len() + a6.len() + a7.len() + a8.len()) as int) =~= a8);
    assert(cat.subrange((a0.len() + a1.len() + a2.len() + a3.len() + a4.len() + a5.len() + a6.len() + a7.len() + a8.len()) as int, (a0.len() + a1.len() + a2.len() + a3.len() + a4.len() + a5.len() + a6.len() + a7.len() + a8.len() + a9.len()) as int) =~= a9);
    assert(cat.subrange((a0.len() + a1.len() + a2.len() + a3.len() + a4.len() + a5.len() + a6.len() + a7.len() + a8.len() + a9.len()) as int, (a0.len() + a1.len() + a2.len() + a3.len() + a4.len() + a5.len() + a6.len() + a7.len() + a8.len() + a9.len() + a10.len()) as int) =~= a10);
    assert(cat.subrange((a0.len() + a1.len() + a2.len() + a3.len() + a4.len() + a5.len() + a6.len() + a7.len() + a8.len() + a9.len() + a10.len()) as int, (a0.len() + a1.len() + a2.len() + a3.len() + a4.len() + a5.len() + a6.len() + a7.len() + a8.len() + a9.len() + a10.len() + a11.len()) as int) =~= a11);
    assert(cat.subrange((a0.len() + a1.len() + a2.len() + a3.len() + a4.len() + a5.len() + a6.len() + a7.len() + a8.len() + a9.len() + a10.len() + a11.len()) as int, (a0.len() + a1.len() + a2.len() + a3.len() + a4.len() + a5.len() + a6.len() + a7.len() + a8.len() + a9.len() + a10.len() + a11.len() + a12.len()) as int) =~= a12);
    assert(cat.subrange((a0.len() + a1.len() + a2.len() + a3.len() + a4.len() + a5.len() + a6.len() + a7.len() + a8.len() + a9.len() + a10.len() + a11.len() + a12.len()) as int, (a0.len() + a1.len() + a2.len() + a3.len() + a4.len() + a5.len() + a6.len() + a7.len() + a8.len() + a9.len() + a10.len() + a11.len() + a12.len() + a13.len()) as int) =~= a13);
    assert(cat.subrange((a0.len() + a1.len() + a2.len() + a3.len() + a4.len() + a5.len() + a6.len() + a7.len() + a8.len() + a9.len() + a10.len() + a11.len() + a12.len() + a13.len()) as int, (a0.len() + a1.len() + a2.len() + a3.len() + a4.len() + a5.len() + a6.len() + a7.len() + a8.len() + a9.len() + a10.len() + a11.len() + a12.len() + a13.len() + a14.len()) as int) =~= a14);
}

} // verus!
