//! Patches of plugin dependencies: for each plugin id, a set of dependency updates.

use crate::plugin_id::{DependencyView, PluginDependency, PluginId};
use vstd::prelude::*;

verus! {

/// Describes how to update a plugin dependency.
#[derive(Debug, Hash)]
pub enum UpdatePluginDependency {
    /// Add dependency in `build_before`
    AddBefore(PluginDependency),
    /// Add dependency in `build_after`
    AddAfter(PluginDependency),
    /// Remove dependency in `build_before`
    RemoveBefore(PluginDependency),
    /// Remove dependency in `build_after`
    RemoveAfter(PluginDependency),
}

/// A dependency update as a value.
pub enum DependencyUpdate {
    AddBefore(DependencyView),
    AddAfter(DependencyView),
    RemoveBefore(DependencyView),
    RemoveAfter(DependencyView),
}

impl View for UpdatePluginDependency {
    type V = DependencyUpdate;

    open spec fn view(&self) -> DependencyUpdate {
        match self {
            UpdatePluginDependency::AddBefore(d) => DependencyUpdate::AddBefore(d@),
            UpdatePluginDependency::AddAfter(d) => DependencyUpdate::AddAfter(d@),
            UpdatePluginDependency::RemoveBefore(d) => DependencyUpdate::RemoveBefore(d@),
            UpdatePluginDependency::RemoveAfter(d) => DependencyUpdate::RemoveAfter(d@),
        }
    }
}

impl Clone for UpdatePluginDependency {
    fn clone(&self) -> (r: Self)
        ensures
            r@ == self@,
    {
        match self {
            UpdatePluginDependency::AddBefore(d) => UpdatePluginDependency::AddBefore(d.clone()),
            UpdatePluginDependency::AddAfter(d) => UpdatePluginDependency::AddAfter(d.clone()),
            UpdatePluginDependency::RemoveBefore(d) => UpdatePluginDependency::RemoveBefore(d.clone()),
            UpdatePluginDependency::RemoveAfter(d) => UpdatePluginDependency::RemoveAfter(d.clone()),
        }
    }
}

impl PartialEq for UpdatePluginDependency {
    fn eq(&self, other: &Self) -> (r: bool) {
        match (self, other) {
            (UpdatePluginDependency::AddBefore(a), UpdatePluginDependency::AddBefore(b)) => a == b,
            (UpdatePluginDependency::AddAfter(a), UpdatePluginDependency::AddAfter(b)) => a == b,
            (UpdatePluginDependency::RemoveBefore(a), UpdatePluginDependency::RemoveBefore(b)) => a == b,
            (UpdatePluginDependency::RemoveAfter(a), UpdatePluginDependency::RemoveAfter(b)) => a == b,
            _ => false,
        }
    }
}

impl vstd::std_specs::cmp::PartialEqSpecImpl for UpdatePluginDependency {
    open spec fn obeys_eq_spec() -> bool {
        true
    }

    open spec fn eq_spec(&self, other: &Self) -> bool {
        self@ == other@
    }
}

impl Eq for UpdatePluginDependency {
}

/// The set of updates that a sequence holds.
pub open spec fn update_set(v: Seq<UpdatePluginDependency>) -> Set<DependencyUpdate> {
    Set::new(|u: DependencyUpdate| exists|j: int| 0 <= j < v.len() && #[trigger] v[j]@ == u)
}

/// The map that a sequence of (id, updates) pairs stands for; a later pair replaces an
/// earlier pair with the same id.
pub open spec fn patch_map(s: Seq<(PluginId, Vec<UpdatePluginDependency>)>) -> Map<Seq<char>, Set<DependencyUpdate>>
    decreases s.len(),
{
    if s.len() == 0 {
        Map::empty()
    } else {
        patch_map(s.drop_last()).insert(s.last().0@, update_set(s.last().1@))
    }
}

/// Whether `v` holds an update equal to `u`.
fn contains_update(v: &Vec<UpdatePluginDependency>, u: &UpdatePluginDependency) -> (r: bool)
    ensures
        r == update_set(v@).contains(u@),
{
    let mut i: usize = 0;
    while i < v.len()
        invariant
            i <= v@.len(),
            forall|j: int| 0 <= j < i ==> v@[j]@ != u@,
        decreases v@.len() - i,
    {
        if v[i] == *u {
            assert(update_set(v@).contains(u@)) by {
                assert(v@[i as int]@ == u@);
            }
            return true;
        }
        i = i + 1;
    }
    false
}

/// Patch of plugin dependencies: for each plugin id, the updates to apply to its
/// dependencies.
#[derive(Debug)]
pub struct PluginDependencyPatch {
    pub(crate) patches: Vec<(PluginId, Vec<UpdatePluginDependency>)>,
}

impl View for PluginDependencyPatch {
    type V = Map<Seq<char>, Set<DependencyUpdate>>;

    closed spec fn view(&self) -> Map<Seq<char>, Set<DependencyUpdate>> {
        patch_map(self.patches@)
    }
}

/// The ids of a sequence of pairs are pairwise different.
pub open spec fn distinct_keys(s: Seq<(PluginId, Vec<UpdatePluginDependency>)>) -> bool {
    forall|i: int, j: int| 0 <= i < j < s.len() ==> s[i].0@ != s[j].0@
}

pub(crate) proof fn lemma_patch_map_domain(s: Seq<(PluginId, Vec<UpdatePluginDependency>)>)
    ensures
        forall|k: Seq<char>|
            patch_map(s).contains_key(k) <==> exists|i: int| 0 <= i < s.len() && #[trigger] s[i].0@ == k,
    decreases s.len(),
{
    if s.len() > 0 {
        lemma_patch_map_domain(s.drop_last());
        assert forall|k: Seq<char>|
            patch_map(s).contains_key(k) implies exists|i: int| 0 <= i < s.len() && #[trigger] s[i].0@ == k by {
            if k == s.last().0@ {
                assert(s[s.len() - 1].0@ == k);
            } else {
                assert(patch_map(s.drop_last()).contains_key(k));
                let i = choose|i: int| 0 <= i < s.drop_last().len() && #[trigger] s.drop_last()[i].0@ == k;
                assert(s[i].0@ == k);
            }
        }
        assert forall|k: Seq<char>|
            (exists|i: int| 0 <= i < s.len() && #[trigger] s[i].0@ == k) implies patch_map(s).contains_key(k) by {
            let i = choose|i: int| 0 <= i < s.len() && #[trigger] s[i].0@ == k;
            if i < s.len() - 1 {
                assert(s.drop_last()[i].0@ == k);
                assert(patch_map(s.drop_last()).contains_key(k));
            }
        }
    }
}

/// With pairwise different ids, each pair's updates are what the map gives for its id.
pub(crate) proof fn lemma_patch_map_entries(s: Seq<(PluginId, Vec<UpdatePluginDependency>)>)
    requires
        distinct_keys(s),
    ensures
        forall|i: int|
            0 <= i < s.len() ==> #[trigger] patch_map(s).contains_key(s[i].0@) && patch_map(s)[s[i].0@]
                == update_set(s[i].1@),
        forall|k: Seq<char>|
            patch_map(s).contains_key(k) <==> exists|i: int| 0 <= i < s.len() && #[trigger] s[i].0@ == k,
    decreases s.len(),
{
    lemma_patch_map_domain(s);
    if s.len() > 0 {
        lemma_patch_map_entries(s.drop_last());
        assert(distinct_keys(s.drop_last()));
        assert forall|i: int|
            0 <= i < s.len() implies #[trigger] patch_map(s).contains_key(s[i].0@) && patch_map(s)[s[i].0@]
                == update_set(s[i].1@) by {
            if i < s.len() - 1 {
                assert(s.drop_last()[i] == s[i]);
                assert(patch_map(s.drop_last()).contains_key(s.drop_last()[i].0@));
                assert(s[i].0@ != s.last().0@);
            }
        }
    }
}

proof fn lemma_patch_map_update(
    s: Seq<(PluginId, Vec<UpdatePluginDependency>)>,
    i: int,
    p: (PluginId, Vec<UpdatePluginDependency>),
)
    requires
        distinct_keys(s),
        0 <= i < s.len(),
        p.0@ == s[i].0@,
    ensures
        distinct_keys(s.update(i, p)),
        patch_map(s.update(i, p)) == patch_map(s).insert(p.0@, update_set(p.1@)),
    decreases s.len(),
{
    let t = s.update(i, p);
    assert(distinct_keys(t)) by {
        assert forall|a: int, b: int| 0 <= a < b < t.len() implies t[a].0@ != t[b].0@ by {
            assert(t[a].0@ == s[a].0@);
            assert(t[b].0@ == s[b].0@);
        }
    }
    if i == s.len() - 1 {
        assert(t.drop_last() =~= s.drop_last());
        assert(patch_map(s.drop_last()).insert(p.0@, update_set(p.1@)) =~= patch_map(s).insert(
            p.0@,
            update_set(p.1@),
        ));
    } else {
        assert(t.drop_last() =~= s.drop_last().update(i, p));
        assert(distinct_keys(s.drop_last()));
        lemma_patch_map_update(s.drop_last(), i, p);
        assert(s.last().0@ != p.0@);
        assert(patch_map(t) =~= patch_map(s).insert(p.0@, update_set(p.1@)));
    }
}

proof fn lemma_patch_map_push(s: Seq<(PluginId, Vec<UpdatePluginDependency>)>, p: (PluginId, Vec<UpdatePluginDependency>))
    requires
        distinct_keys(s),
        !patch_map(s).contains_key(p.0@),
    ensures
        distinct_keys(s.push(p)),
        patch_map(s.push(p)) == patch_map(s).insert(p.0@, update_set(p.1@)),
{
    lemma_patch_map_domain(s);
    assert(s.push(p).drop_last() =~= s);
    assert forall|a: int, b: int| 0 <= a < b < s.push(p).len() implies s.push(p)[a].0@ != s.push(p)[b].0@ by {
        if b == s.len() {
            assert(s[a].0@ == s.push(p)[a].0@);
        }
    }
}

impl PluginDependencyPatch {
    /// The updates listed for each plugin id, one pair per id.
    pub(crate) open spec fn entries(&self) -> Seq<(PluginId, Vec<UpdatePluginDependency>)> {
        self.patches@
    }

    /// The representation invariant: each plugin id is listed once.
    pub closed spec fn well_formed(&self) -> bool {
        distinct_keys(self.patches@)
    }

    pub(crate) proof fn lemma_view(&self)
        requires
            self.well_formed(),
        ensures
            distinct_keys(self.entries()),
            self@ == patch_map(self.entries()),
    {
    }

    /// Position of the pair for `id`, if any.
    fn find(&self, id: &PluginId) -> (r: Option<usize>)
        requires
            self.well_formed(),
        ensures
            match r {
                Some(i) => i < self.patches@.len() && self.patches@[i as int].0@ == id@,
                None => !self@.contains_key(id@),
            },
    {
        proof {
            lemma_patch_map_domain(self.patches@);
        }
        let mut i: usize = 0;
        while i < self.patches.len()
            invariant
                i <= self.patches@.len(),
                forall|j: int| 0 <= j < i ==> self.patches@[j].0@ != id@,
            decreases self.patches@.len() - i,
        {
            if self.patches[i].0 == *id {
                return Some(i);
            }
            i = i + 1;
        }
        None
    }

    /// Sets the updates of `id`, replacing those it had.
    fn set_updates(&mut self, id: PluginId, updates: Vec<UpdatePluginDependency>)
        requires
            old(self).well_formed(),
        ensures
            final(self).well_formed(),
            final(self)@ == old(self)@.insert(id@, update_set(updates@)),
    {
        match self.find(&id) {
            Some(i) => {
                proof {
                    lemma_patch_map_update(self.patches@, i as int, (id, updates));
                }
                self.patches.set(i, (id, updates));
            },
            None => {
                proof {
                    lemma_patch_map_push(self.patches@, (id, updates));
                }
                self.patches.push((id, updates));
            },
        }
    }

    /// A patch with no update.
    pub fn default() -> (r: Self)
        ensures
            r.well_formed(),
            r@ == Map::<Seq<char>, Set<DependencyUpdate>>::empty(),
    {
        PluginDependencyPatch { patches: Vec::new() }
    }

    /// Creates a new [`PluginDependencyPatch`] from (id, updates) pairs; when an id is
    /// listed twice, the later pair wins.
    pub fn new(patches: Vec<(PluginId, Vec<UpdatePluginDependency>)>) -> (r: Self)
        ensures
            r.well_formed(),
            r@ == patch_map(patches@),
    {
        let mut result = PluginDependencyPatch::default();
        let ghost all = patches@;
        proof {
            assert(all.take(0) =~= Seq::<(PluginId, Vec<UpdatePluginDependency>)>::empty());
        }
        let mut k: usize = 0;
        while k < patches.len()
            invariant
                patches@ == all,
                k <= all.len(),
                result.well_formed(),
                result@ == patch_map(all.take(k as int)),
            decreases all.len() - k,
        {
            let (id, updates) = clone_pair(&patches[k]);
            result.set_updates(id, updates);
            proof {
                assert(all.take(k + 1).drop_last() =~= all.take(k as int));
                assert(all.take(k + 1).last() == all[k as int]);
            }
            k = k + 1;
        }
        proof {
            assert(all.take(all.len() as int) =~= all);
        }
        result
    }

    /// Adds a dependency update for `id`.
    pub fn add(&mut self, id: PluginId, dep: UpdatePluginDependency)
        requires
            old(self).well_formed(),
        ensures
            final(self).well_formed(),
            final(self)@ == patch_with(old(self)@, id@, dep@),
    {
        proof {
            lemma_patch_map_entries(self.patches@);
        }
        match self.find(&id) {
            Some(i) => {
                let mut updates = clone_updates(&self.patches[i].1);
                if !contains_update(&updates, &dep) {
                    updates.push(dep);
                }
                let ghost old_set = update_set(self.patches@[i as int].1@);
                assert(update_set(updates@) =~= old_set.insert(dep@)) by {
                    assert forall|u: DependencyUpdate| #[trigger] update_set(updates@).contains(u) implies old_set.insert(dep@).contains(u) by {
                        let j = choose|j: int| 0 <= j < updates@.len() && #[trigger] updates@[j]@ == u;
                        if j < self.patches@[i as int].1@.len() {
                            assert(self.patches@[i as int].1@[j]@ == u);
                        }
                    }
                    assert forall|u: DependencyUpdate| old_set.insert(dep@).contains(u) implies #[trigger] update_set(updates@).contains(u) by {
                        if u != dep@ {
                            let j = choose|j: int| 0 <= j < self.patches@[i as int].1@.len() && #[trigger] self.patches@[i as int].1@[j]@ == u;
                            assert(updates@[j]@ == u);
                        } else if !old_set.contains(dep@) {
                            assert(updates@[updates@.len() - 1]@ == u);
                        }
                    }
                }
                self.set_updates(id, updates);
            },
            None => {
                let mut updates: Vec<UpdatePluginDependency> = Vec::new();
                updates.push(dep);
                assert(update_set(updates@) =~= Set::<DependencyUpdate>::empty().insert(updates@[0]@)) by {
                    assert(updates@[0]@ == updates@[0]@);
                }
                self.set_updates(id, updates);
            },
        }
    }

    /// Removes a dependency update of `id`; the id stays in the patch, possibly with no
    /// update.
    pub fn remove(&mut self, id: &PluginId, dep: &UpdatePluginDependency)
        requires
            old(self).well_formed(),
        ensures
            final(self).well_formed(),
            final(self)@ == patch_without(old(self)@, id@, dep@),
    {
        proof {
            lemma_patch_map_entries(self.patches@);
        }
        match self.find(id) {
            Some(i) => {
                let ghost old_updates = self.patches@[i as int].1@;
                let mut kept: Vec<UpdatePluginDependency> = Vec::new();
                let mut j: usize = 0;
                while j < self.patches[i].1.len()
                    invariant
                        i < self.patches@.len(),
                        old_updates == self.patches@[i as int].1@,
                        j <= old_updates.len(),
                        update_set(kept@) == update_set(old_updates.take(j as int)).remove(dep@),
                    decreases old_updates.len() - j,
                {
                    let ghost before = kept@;
                    if self.patches[i].1[j] != *dep {
                        kept.push(self.patches[i].1[j].clone());
                    }
                    proof {
                        let tj = old_updates.take(j as int);
                        let tj1 = old_updates.take(j + 1);
                        assert(tj1 =~= tj.push(old_updates[j as int]));
                        assert(update_set(kept@) =~= update_set(tj1).remove(dep@)) by {
                            assert forall|u: DependencyUpdate| #[trigger] update_set(kept@).contains(u) implies update_set(tj1).remove(dep@).contains(u) by {
                                let m = choose|m: int| 0 <= m < kept@.len() && #[trigger] kept@[m]@ == u;
                                if m < before.len() {
                                    assert(update_set(before).contains(u));
                                    let q = choose|q: int| 0 <= q < tj.len() && #[trigger] tj[q]@ == u;
                                    assert(tj1[q]@ == u);
                                } else {
                                    assert(tj1[j as int]@ == u);
                                }
                            }
                            assert forall|u: DependencyUpdate| update_set(tj1).remove(dep@).contains(u) implies #[trigger] update_set(kept@).contains(u) by {
                                let q = choose|q: int| 0 <= q < tj1.len() && #[trigger] tj1[q]@ == u;
                                if q < j {
                                    assert(tj[q]@ == u);
                                    assert(update_set(before).contains(u));
                                    let m = choose|m: int| 0 <= m < before.len() && #[trigger] before[m]@ == u;
                                    assert(kept@[m]@ == u);
                                } else {
                                    assert(kept@[kept@.len() - 1]@ == u);
                                }
                            }
                        }
                    }
                    j = j + 1;
                }
                proof {
                    assert(old_updates.take(old_updates.len() as int) =~= old_updates);
                }
                let key = self.patches[i].0.clone();
                self.set_updates(key, kept);
            },
            None => {},
        }
    }

    /// Adds each (id, update) pair, in order.
    pub fn extend(&mut self, deps: Vec<(PluginId, UpdatePluginDependency)>)
        requires
            old(self).well_formed(),
        ensures
            final(self).well_formed(),
            final(self)@ == add_all(old(self)@, deps@),
    {
        let ghost start = self@;
        let mut k: usize = 0;
        while k < deps.len()
            invariant
                self.well_formed(),
                k <= deps@.len(),
                self@ == add_all(start, deps@.take(k as int)),
            decreases deps@.len() - k,
        {
            let id = deps[k].0.clone();
            let dep = deps[k].1.clone();
            self.add(id, dep);
            proof {
                assert(deps@.take(k + 1).drop_last() =~= deps@.take(k as int));
            }
            k = k + 1;
        }
        proof {
            assert(deps@.take(deps@.len() as int) =~= deps@);
        }
    }

    /// A patch made of the given (id, update) pairs.
    pub fn from_iter(deps: Vec<(PluginId, UpdatePluginDependency)>) -> (r: Self)
        ensures
            r.well_formed(),
            r@ == add_all(Map::empty(), deps@),
    {
        let mut val = PluginDependencyPatch::default();
        val.extend(deps);
        val
    }
}

/// The patch with the update `u` for `id` added.
pub open spec fn patch_with(m: Map<Seq<char>, Set<DependencyUpdate>>, id: Seq<char>, u: DependencyUpdate) -> Map<
    Seq<char>,
    Set<DependencyUpdate>,
> {
    m.insert(id, (if m.contains_key(id) { m[id] } else { Set::empty() }).insert(u))
}

/// The patch with the update `u` for `id` removed; `id` stays listed.
pub open spec fn patch_without(m: Map<Seq<char>, Set<DependencyUpdate>>, id: Seq<char>, u: DependencyUpdate) -> Map<
    Seq<char>,
    Set<DependencyUpdate>,
> {
    if m.contains_key(id) {
        m.insert(id, m[id].remove(u))
    } else {
        m
    }
}

/// Adding an update twice is adding it once.
pub proof fn lemma_patch_add_idempotent(m: Map<Seq<char>, Set<DependencyUpdate>>, id: Seq<char>, u: DependencyUpdate)
    ensures
        patch_with(patch_with(m, id, u), id, u) == patch_with(m, id, u),
{
    let s1 = (if m.contains_key(id) { m[id] } else { Set::empty() }).insert(u);
    assert(s1.insert(u) =~= s1);
    assert(patch_with(patch_with(m, id, u), id, u) =~= patch_with(m, id, u));
}

/// Removing an update just added undoes the addition, except that `id` stays listed.
pub proof fn lemma_patch_remove_undoes_add(m: Map<Seq<char>, Set<DependencyUpdate>>, id: Seq<char>, u: DependencyUpdate)
    requires
        !(m.contains_key(id) && m[id].contains(u)),
    ensures
        patch_without(patch_with(m, id, u), id, u) == (if m.contains_key(id) {
            m
        } else {
            m.insert(id, Set::empty())
        }),
{
    if m.contains_key(id) {
        assert(m[id].insert(u).remove(u) =~= m[id]);
        assert(patch_without(patch_with(m, id, u), id, u) =~= m);
    } else {
        assert(Set::<DependencyUpdate>::empty().insert(u).remove(u) =~= Set::empty());
        assert(patch_without(patch_with(m, id, u), id, u) =~= m.insert(id, Set::empty()));
    }
}

/// Adding updates for one id leaves the updates of every other id as they were.
pub proof fn lemma_patch_add_is_local(m: Map<Seq<char>, Set<DependencyUpdate>>, id: Seq<char>, u: DependencyUpdate, other: Seq<char>)
    requires
        other != id,
    ensures
        patch_with(m, id, u).contains_key(other) == m.contains_key(other),
        m.contains_key(other) ==> patch_with(m, id, u)[other] == m[other],
{
}

/// The map after adding each (id, update) pair of `deps` in order.
pub open spec fn add_all(
    m: Map<Seq<char>, Set<DependencyUpdate>>,
    deps: Seq<(PluginId, UpdatePluginDependency)>,
) -> Map<Seq<char>, Set<DependencyUpdate>>
    decreases deps.len(),
{
    if deps.len() == 0 {
        m
    } else {
        let (id, dep) = deps.last();
        patch_with(add_all(m, deps.drop_last()), id@, dep@)
    }
}

fn clone_updates(v: &Vec<UpdatePluginDependency>) -> (r: Vec<UpdatePluginDependency>)
    ensures
        r@.len() == v@.len(),
        forall|j: int| 0 <= j < v@.len() ==> #[trigger] r@[j]@ == v@[j]@,
{
    let mut r: Vec<UpdatePluginDependency> = Vec::new();
    let mut j: usize = 0;
    while j < v.len()
        invariant
            j <= v@.len(),
            r@.len() == j,
            forall|m: int| 0 <= m < j ==> #[trigger] r@[m]@ == v@[m]@,
        decreases v@.len() - j,
    {
        r.push(v[j].clone());
        j = j + 1;
    }
    r
}

fn clone_pair(p: &(PluginId, Vec<UpdatePluginDependency>)) -> (r: (PluginId, Vec<UpdatePluginDependency>))
    ensures
        r.0@ == p.0@,
        update_set(r.1@) == update_set(p.1@),
{
    let v = clone_updates(&p.1);
    assert(update_set(v@) =~= update_set(p.1@)) by {
        assert forall|u: DependencyUpdate| #[trigger] update_set(v@).contains(u) implies update_set(p.1@).contains(u) by {
            let j = choose|j: int| 0 <= j < v@.len() && #[trigger] v@[j]@ == u;
            assert(p.1@[j]@ == u);
        }
        assert forall|u: DependencyUpdate| update_set(p.1@).contains(u) implies #[trigger] update_set(v@).contains(u) by {
            let j = choose|j: int| 0 <= j < p.1@.len() && #[trigger] p.1@[j]@ == u;
            assert(v@[j]@ == u);
        }
    }
    (p.0.clone(), v)
}

/// For each id that the pairs of `deps` name, all the updates listed for it: one set per
/// id, whatever the order of the pairs.
pub open spec fn merged_updates(deps: Seq<(PluginId, UpdatePluginDependency)>) -> Map<Seq<char>, Set<DependencyUpdate>> {
    Map::new(
        |id: Seq<char>| exists|j: int| 0 <= j < deps.len() && #[trigger] deps[j].0@ == id,
        |id: Seq<char>|
            Set::new(|u: DependencyUpdate| exists|j: int| 0 <= j < deps.len() && #[trigger] deps[j].0@ == id && deps[j].1@ == u),
    )
}

/// Adding (id, update) pairs one by one to an empty patch merges the updates of each id
/// into one set: the patch that [`PluginDependencyPatch::from_iter`] gives.
pub proof fn lemma_add_all_merges(deps: Seq<(PluginId, UpdatePluginDependency)>)
    ensures
        add_all(Map::empty(), deps) == merged_updates(deps),
    decreases deps.len(),
{
    if deps.len() > 0 {
        let dl = deps.drop_last();
        lemma_add_all_merges(dl);
        let (id, dep) = deps.last();
        let m = merged_updates(dl);
        let a = patch_with(m, id@, dep@);
        let b = merged_updates(deps);
        let n = deps.len() - 1;
        assert forall|k: Seq<char>| a.contains_key(k) == b.contains_key(k) by {
            if b.contains_key(k) {
                let j = choose|j: int| 0 <= j < deps.len() && #[trigger] deps[j].0@ == k;
                if j < n {
                    assert(dl[j] == deps[j]);
                }
            }
            if m.contains_key(k) {
                let j = choose|j: int| 0 <= j < dl.len() && #[trigger] dl[j].0@ == k;
                assert(dl[j] == deps[j]);
            }
            if k == id@ {
                assert(deps[n].0@ == k);
            }
        }
        assert forall|k: Seq<char>| #[trigger] a.contains_key(k) implies a[k] == b[k] by {
            assert forall|u: DependencyUpdate| a[k].contains(u) == b[k].contains(u) by {
                if b[k].contains(u) {
                    let j = choose|j: int| 0 <= j < deps.len() && #[trigger] deps[j].0@ == k && deps[j].1@ == u;
                    if j < n {
                        assert(dl[j] == deps[j]);
                        assert(m.contains_key(k));
                    }
                }
                if m.contains_key(k) && m[k].contains(u) {
                    let j = choose|j: int| 0 <= j < dl.len() && #[trigger] dl[j].0@ == k && dl[j].1@ == u;
                    assert(dl[j] == deps[j]);
                }
                if k == id@ {
                    assert(deps[n].0@ == k && deps[n].1@ == dep@);
                }
            }
            assert(a[k] =~= b[k]);
        }
        assert(a =~= b);
    } else {
        assert(merged_updates(deps) =~= Map::empty());
    }
}

} // verus!
