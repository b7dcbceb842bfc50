//! What a parsed patch stands for: for each plugin id, the dependency updates to make,
//! each naming the list it changes (`build_before` or `build_after`), whether it adds or
//! removes, and whether the dependency is required or optional.

use super::input::{
    DepView, DepsWithIdView, EntryView, IdView, PatchView, PluginDep, PluginDependencyOperation,
    PluginDepsWithId, PluginId, PluginPatch, PluginPatchEntry, SyntaxError,
};
use super::token::{text_is, TokenTree};
use vstd::prelude::*;

verus! {

/// The update a dependency change makes.
#[derive(Clone, Copy, Debug, PartialEq, Eq, Structural)]
pub enum DependencyOp {
    AddBefore,
    AddAfter,
    RemoveBefore,
    RemoveAfter,
}

/// Whether a dependency is required or optional.
#[derive(Clone, Copy, Debug, PartialEq, Eq, Structural)]
pub enum DependencyKind {
    Required,
    Optional,
}

/// One dependency update of an entry.
#[derive(Debug)]
pub struct PluginPatchDependencyOutput {
    pub op_ident: DependencyOp,
    pub kind_ident: DependencyKind,
    /// The tokens inside the brackets of each attribute of the change.
    pub attrs: Vec<Vec<TokenTree>>,
    pub id: PluginId,
}

/// The dependency updates of one plugin id.
#[derive(Debug)]
pub struct PluginPatchEntryOutput {
    pub id: PluginId,
    pub dependencies: Vec<PluginPatchDependencyOutput>,
}

/// The dependency updates of a whole patch, entry by entry.
#[derive(Debug)]
pub struct PluginPatchOutput {
    pub entries: Vec<PluginPatchEntryOutput>,
}

/// A dependency update as a value.
pub struct DependencyOutView {
    pub op: DependencyOp,
    pub kind: DependencyKind,
    pub attrs: Seq<Seq<TokenTree>>,
    pub id: IdView,
}

/// The updates of one plugin id as a value.
pub struct EntryOutView {
    pub id: IdView,
    pub dependencies: Seq<DependencyOutView>,
}

impl View for PluginPatchDependencyOutput {
    type V = DependencyOutView;

    open spec fn view(&self) -> DependencyOutView {
        DependencyOutView {
            op: self.op_ident,
            kind: self.kind_ident,
            attrs: self.attrs@.map_values(|a: Vec<TokenTree>| a@),
            id: self.id@,
        }
    }
}

impl View for PluginPatchEntryOutput {
    type V = EntryOutView;

    open spec fn view(&self) -> EntryOutView {
        EntryOutView { id: self.id@, dependencies: self.dependencies@.map_values(|d: PluginPatchDependencyOutput| d@) }
    }
}

impl View for PluginPatchOutput {
    type V = Seq<EntryOutView>;

    open spec fn view(&self) -> Seq<EntryOutView> {
        self.entries@.map_values(|e: PluginPatchEntryOutput| e@)
    }
}

/// Why tokens do not make a patch.
#[derive(Debug)]
pub enum PatchError {
    /// The tokens are not in the patch syntax.
    Syntax(SyntaxError),
    /// A property other than `build_before` and `build_after`: its name, and where it
    /// stands in the source.
    InvalidProperty(String, Option<usize>),
}

impl PatchError {
    /// The error message.
    pub fn to_string(&self) -> (r: String)
        ensures
            r@ == match self {
                PatchError::Syntax(e) => "expected "@ + e.expected@,
                PatchError::InvalidProperty(name, _) => "Invalid property: "@ + name@
                    + ", expected either `build_before` or `build_after`"@,
            },
    {
        match self {
            PatchError::Syntax(e) => {
                let mut s = String::from_str("expected ");
                s.append(e.expected);
                s
            },
            PatchError::InvalidProperty(name, _) => {
                let mut s = String::from_str("Invalid property: ");
                s.append(name.as_str());
                s.append(", expected either `build_before` or `build_after`");
                s
            },
        }
    }
}

/// A property that names a dependency list.
pub open spec fn property_ok(ident: Seq<char>) -> bool {
    ident == "build_before"@ || ident == "build_after"@
}

/// The update that an operation on the `build_before` list (or else the `build_after`
/// list) makes.
pub open spec fn op_of(op: PluginDependencyOperation, before: bool) -> DependencyOp {
    match op {
        PluginDependencyOperation::Add => if before {
            DependencyOp::AddBefore
        } else {
            DependencyOp::AddAfter
        },
        PluginDependencyOperation::Remove => if before {
            DependencyOp::RemoveBefore
        } else {
            DependencyOp::RemoveAfter
        },
    }
}

/// The update of a dependency change under a property.
pub open spec fn dep_output(d: DepView, before: bool) -> DependencyOutView {
    DependencyOutView {
        op: op_of(d.ty.op, before),
        kind: if d.ty.maybe_opt {
            DependencyKind::Optional
        } else {
            DependencyKind::Required
        },
        attrs: d.attrs,
        id: d.id,
    }
}

/// The updates of a property's dependency changes, in order.
pub open spec fn group_output(g: DepsWithIdView) -> Seq<DependencyOutView> {
    g.deps.deps.map_values(|d: DepView| dep_output(d, g.ident == "build_before"@))
}

/// The updates of an entry: those of its properties, one after the other.
pub open spec fn entry_output(e: EntryView) -> EntryOutView {
    EntryOutView { id: e.id, dependencies: e.deps.map_values(|g: DepsWithIdView| group_output(g)).flatten() }
}

/// The updates of a patch, entry by entry.
pub open spec fn patch_output(p: PatchView) -> Seq<EntryOutView> {
    p.entries.map_values(|e: EntryView| entry_output(e))
}

/// Every property of the patch names a dependency list.
pub open spec fn all_properties_ok(p: PatchView) -> bool {
    forall|a: int, b: int|
        0 <= a < p.entries.len() && 0 <= b < p.entries[a].deps.len() ==> #[trigger] property_ok(
            p.entries[a].deps[b].ident,
        )
}

/// Property `j` of entry `i` is the first one, in the order written, that names no
/// dependency list.
pub open spec fn first_invalid_property(p: PatchView, i: int, j: int) -> bool {
    &&& 0 <= i < p.entries.len()
    &&& 0 <= j < p.entries[i].deps.len()
    &&& !property_ok(p.entries[i].deps[j].ident)
    &&& forall|a: int, b: int|
        0 <= a < i && 0 <= b < p.entries[a].deps.len() ==> #[trigger] property_ok(p.entries[a].deps[b].ident)
    &&& forall|b: int| 0 <= b < j ==> #[trigger] property_ok(p.entries[i].deps[b].ident)
}

/// Takes the first element out of `v`.
pub(crate) fn take_first<T>(v: &mut Vec<T>) -> (r: T)
    requires
        old(v)@.len() > 0,
    ensures
        r == old(v)@[0],
        final(v)@ == old(v)@.skip(1),
{
    let ghost before = v@;
    let r = v.remove(0);
    assert(before.remove(0) =~= before.skip(1));
    r
}

/// Taking the first element out of a sequence whose values are the tail of `all` from
/// `i` on.
pub(crate) proof fn lemma_skip_first<T, V>(rest: Seq<T>, f: spec_fn(T) -> V, all: Seq<V>, i: int)
    requires
        rest.len() > 0,
        0 <= i <= all.len(),
        rest.map_values(f) == all.skip(i),
    ensures
        i < all.len(),
        f(rest[0]) == all[i],
        rest.skip(1).map_values(f) == all.skip(i + 1),
{
    assert(rest.map_values(f).len() == rest.len());
    assert(all.skip(i).len() == all.len() - i);
    assert(rest.map_values(f)[0] == f(rest[0]));
    assert(all.skip(i)[0] == all[i]);
    assert forall|t: int| 0 <= t < rest.len() - 1 implies #[trigger] rest.skip(1).map_values(f)[t] == all.skip(
        i + 1,
    )[t] by {
        assert(rest.skip(1)[t] == rest[t + 1]);
        assert(rest.map_values(f)[t + 1] == f(rest[t + 1]));
        assert(all.skip(i)[t + 1] == all[i + t + 1]);
    }
    assert(rest.skip(1).map_values(f) =~= all.skip(i + 1));
}

impl PluginPatchOutput {
    /// The updates a parsed patch stands for; fails on the first property that is neither
    /// `build_before` nor `build_after`.
    #[verifier::rlimit(60)]
    pub fn try_from(value: PluginPatch) -> (r: Result<PluginPatchOutput, PatchError>)
        ensures
            r is Ok <==> all_properties_ok(value@),
            match r {
                Ok(out) => out@ == patch_output(value@),
                Err(PatchError::InvalidProperty(name, at)) => exists|i: int, j: int|
                    #[trigger] first_invalid_property(value@, i, j) && name@ == value@.entries[i].deps[j].ident
                        && at == value@.entries[i].deps[j].span,
                Err(PatchError::Syntax(_)) => false,
            },
    {
        let ghost p = value@;
        let ghost entries_view = value@.entries;
        let mut entries = value.entries;
        let mut out: Vec<PluginPatchEntryOutput> = Vec::new();
        let mut invalid: Option<(String, Option<usize>)> = None;
        let ghost mut i: int = 0;
        let ghost mut fi: int = 0;
        let ghost mut fj: int = 0;
        while entries.len() > 0 && invalid.is_none()
            invariant
                0 <= i <= p.entries.len(),
                p.entries == entries_view,
                p == value@,
                entries@.map_values(|e: PluginPatchEntry| e@) == entries_view.skip(i),
                invalid is None ==> out@.map_values(|e: PluginPatchEntryOutput| e@) == patch_output(p).take(i),
                invalid is None ==> forall|a: int, b: int|
                    0 <= a < i && 0 <= b < p.entries[a].deps.len() ==> #[trigger] property_ok(
                        p.entries[a].deps[b].ident,
                    ),
                invalid matches Some(name) ==> first_invalid_property(p, fi, fj) && name.0@
                    == p.entries[fi].deps[fj].ident && name.1 == p.entries[fi].deps[fj].span,
            decreases entries@.len(),
        {
            let ghost rest = entries@;
            let entry = take_first(&mut entries);
            proof {
                lemma_skip_first(rest, |e: PluginPatchEntry| e@, entries_view, i);
            }
            let ghost ev = entry@;
            let ghost gviews = ev.deps;
            let mut groups = entry.deps;
            let mut dependencies: Vec<PluginPatchDependencyOutput> = Vec::new();
            let ghost mut j: int = 0;
            proof {
                assert(gviews.take(0).map_values(|g: DepsWithIdView| group_output(g)) =~= Seq::<
                    Seq<DependencyOutView>,
                >::empty());
                assert(gviews.skip(0) =~= gviews);
            }
            while groups.len() > 0 && invalid.is_none()
                invariant
                    0 <= i < p.entries.len(),
                    ev == p.entries[i],
                    gviews == ev.deps,
                    0 <= j <= gviews.len(),
                    groups@.map_values(|g: PluginDepsWithId| g@) == gviews.skip(j),
                    invalid is None ==> dependencies@.map_values(|d: PluginPatchDependencyOutput| d@)
                        == gviews.take(j).map_values(|g: DepsWithIdView| group_output(g)).flatten(),
                    invalid is None ==> forall|b: int| 0 <= b < j ==> #[trigger] property_ok(gviews[b].ident),
                    forall|a: int, b: int|
                        0 <= a < i && 0 <= b < p.entries[a].deps.len() ==> #[trigger] property_ok(
                            p.entries[a].deps[b].ident,
                        ),
                    invalid matches Some(name) ==> first_invalid_property(p, fi, fj) && name.0@
                        == p.entries[fi].deps[fj].ident && name.1 == p.entries[fi].deps[fj].span,
                decreases groups@.len(),
            {
                let ghost rest = groups@;
                let group = take_first(&mut groups);
                proof {
                    lemma_skip_first(rest, |g: PluginDepsWithId| g@, gviews, j);
                }
                let before = text_is(&group.ident, "build_before");
                let after = text_is(&group.ident, "build_after");
                if !before && !after {
                    proof {
                        assert(first_invalid_property(p, i, j)) by {
                            assert forall|b: int| 0 <= b < j implies #[trigger] property_ok(
                                p.entries[i].deps[b].ident,
                            ) by {
                                assert(property_ok(gviews[b].ident));
                            }
                        }
                        fi = i;
                        fj = j;
                    }
                    invalid = Some((group.ident, group.span));
                } else {
                    let ghost gv = group@;
                    let ghost dviews = gv.deps.deps;
                    let ghost start = dependencies@.map_values(|d: PluginPatchDependencyOutput| d@);
                    let mut deps = group.deps.deps;
                    let ghost mut k: int = 0;
                    proof {
                        assert(group_output(gv).take(0) =~= Seq::<DependencyOutView>::empty());
                        assert(start + group_output(gv).take(0) =~= start);
                        assert(dviews.skip(0) =~= dviews);
                    }
                    while deps.len() > 0
                        invariant
                            0 <= k <= dviews.len(),
                            dviews == gv.deps.deps,
                            before == (gv.ident == "build_before"@),
                            deps@.map_values(|d: PluginDep| d@) == dviews.skip(k),
                            dependencies@.map_values(|d: PluginPatchDependencyOutput| d@) == start + group_output(
                                gv,
                            ).take(k),
                        decreases deps@.len(),
                    {
                        let ghost rest = deps@;
                        let dep = take_first(&mut deps);
                        proof {
                            lemma_skip_first(rest, |d: PluginDep| d@, dviews, k);
                        }
                        let op_ident = match dep.ty.op {
                            PluginDependencyOperation::Add => if before {
                                DependencyOp::AddBefore
                            } else {
                                DependencyOp::AddAfter
                            },
                            PluginDependencyOperation::Remove => if before {
                                DependencyOp::RemoveBefore
                            } else {
                                DependencyOp::RemoveAfter
                            },
                        };
                        let kind_ident = if dep.ty.maybe_opt {
                            DependencyKind::Optional
                        } else {
                            DependencyKind::Required
                        };
                        let ghost prev = dependencies@.map_values(|d: PluginPatchDependencyOutput| d@);
                        dependencies.push(
                            PluginPatchDependencyOutput { op_ident, kind_ident, attrs: dep.attrs, id: dep.id },
                        );
                        proof {
                            assert(group_output(gv)[k] == dep_output(dviews[k], before));
                            assert(dependencies@.map_values(|d: PluginPatchDependencyOutput| d@) =~= prev.push(
                                dep_output(dviews[k], before),
                            ));
                            assert(group_output(gv).take(k + 1) =~= group_output(gv).take(k).push(
                                group_output(gv)[k],
                            ));
                            assert(start + group_output(gv).take(k + 1) =~= (start + group_output(gv).take(
                                k,
                            )).push(group_output(gv)[k]));
                            k = k + 1;
                        }
                    }
                    proof {
                        assert(k == dviews.len());
                        assert(group_output(gv).take(k) =~= group_output(gv));
                        let outs = gviews.map_values(|g: DepsWithIdView| group_output(g));
                        assert(outs.take(j + 1) =~= outs.take(j).push(group_output(gv)));
                        assert(gviews.take(j + 1).map_values(|g: DepsWithIdView| group_output(g)) =~= outs.take(
                            j + 1,
                        ));
                        assert(gviews.take(j).map_values(|g: DepsWithIdView| group_output(g)) =~= outs.take(j));
                        outs.take(j).lemma_flatten_push(group_output(gv));
                        assert(property_ok(gviews[j].ident));
                    }
                }
                proof {
                    j = j + 1;
                }
            }
            if invalid.is_none() {
                proof {
                    assert(j == gviews.len());
                    assert(gviews.take(j) =~= gviews);
                }
                let ghost prev_out = out@.map_values(|e: PluginPatchEntryOutput| e@);
                out.push(PluginPatchEntryOutput { id: entry.id, dependencies });
                proof {
                    assert(out@.map_values(|e: PluginPatchEntryOutput| e@) =~= prev_out.push(entry_output(ev)));
                    assert(patch_output(p).take(i + 1) =~= patch_output(p).take(i).push(entry_output(ev)));
                    assert forall|a: int, b: int|
                        0 <= a < i + 1 && 0 <= b < p.entries[a].deps.len() implies #[trigger] property_ok(
                        p.entries[a].deps[b].ident,
                    ) by {
                        if a == i {
                            assert(property_ok(gviews[b].ident));
                        }
                    }
                }
            }
            proof {
                i = i + 1;
            }
        }
        match invalid {
            Some((name, at)) => {
                proof {
                    assert(!all_properties_ok(p)) by {
                        assert(!property_ok(p.entries[fi].deps[fj].ident));
                    }
                }
                Err(PatchError::InvalidProperty(name, at))
            },
            None => {
                proof {
                    assert(i == p.entries.len());
                    assert(patch_output(p).take(i) =~= patch_output(p));
                }
                Ok(PluginPatchOutput { entries: out })
            },
        }
    }
}

/// The number of dependency changes written in the first `j` properties.
pub open spec fn changes_before(props: Seq<DepsWithIdView>, j: int) -> int
    decreases j,
{
    if j <= 0 || j > props.len() {
        0
    } else {
        changes_before(props, j - 1) + props[j - 1].deps.deps.len()
    }
}

/// The position in a flattened sequence at which the `j`-th part starts.
pub open spec fn part_start<A>(ss: Seq<Seq<A>>, j: int) -> int
    decreases j,
{
    if j <= 0 || j > ss.len() {
        0
    } else {
        part_start(ss, j - 1) + ss[j - 1].len()
    }
}

proof fn lemma_part_start_nonneg<A>(ss: Seq<Seq<A>>, j: int)
    ensures
        part_start(ss, j) >= 0,
    decreases j,
{
    if j > 0 && j <= ss.len() {
        lemma_part_start_nonneg(ss, j - 1);
    }
}

proof fn lemma_part_start_prefix<A>(ss: Seq<Seq<A>>, j: int)
    requires
        ss.len() > 0,
        0 <= j < ss.len(),
    ensures
        part_start(ss.drop_last(), j) == part_start(ss, j),
    decreases j,
{
    if j > 0 {
        lemma_part_start_prefix(ss, j - 1);
        assert(ss.drop_last()[j - 1] == ss[j - 1]);
    }
}

/// Element `k` of part `j` stands at `part_start(ss, j) + k` of the flattened sequence,
/// which is as long as all the parts together.
proof fn lemma_flatten_index<A>(ss: Seq<Seq<A>>, j: int, k: int)
    requires
        0 <= j < ss.len(),
        0 <= k < ss[j].len(),
    ensures
        part_start(ss, j) + k < ss.flatten().len(),
        ss.flatten()[part_start(ss, j) + k] == ss[j][k],
    decreases ss.len(),
{
    let dl = ss.drop_last();
    dl.lemma_flatten_push(ss.last());
    assert(dl.push(ss.last()) =~= ss);
    let f = ss.flatten();
    assert(f == dl.flatten() + ss.last());
    lemma_part_start_full(dl);
    lemma_part_start_prefix(ss, j);
    if j == ss.len() - 1 {
        lemma_part_start_nonneg(ss, j);
        assert(part_start(ss, j) == dl.flatten().len());
        assert(f[part_start(ss, j) + k] == ss.last()[k]);
    } else {
        assert(dl[j] == ss[j]);
        lemma_flatten_index(dl, j, k);
        let q = part_start(dl, j) + k;
        lemma_part_start_nonneg(dl, j);
        assert(q == part_start(ss, j) + k);
        assert(q < dl.flatten().len());
        assert((dl.flatten() + ss.last())[q] == dl.flatten()[q]);
        assert(f[q] == dl.flatten()[q]);
    }
}

proof fn lemma_part_start_full<A>(ss: Seq<Seq<A>>)
    ensures
        part_start(ss, ss.len() as int) == ss.flatten().len(),
    decreases ss.len(),
{
    if ss.len() > 0 {
        let dl = ss.drop_last();
        dl.lemma_flatten_push(ss.last());
        assert(dl.push(ss.last()) =~= ss);
        assert(ss.flatten() == dl.flatten() + ss.last());
        lemma_part_start_full(dl);
        lemma_part_start_prefix(ss, ss.len() - 1);
        assert(part_start(ss, ss.len() as int) == part_start(ss, ss.len() - 1) + ss[ss.len() - 1].len());
    }
}

proof fn lemma_flatten_len<A>(ss: Seq<Seq<A>>)
    ensures
        ss.flatten().len() == part_start(ss, ss.len() as int),
{
    lemma_part_start_full(ss);
}

proof fn lemma_changes_before(props: Seq<DepsWithIdView>, j: int)
    requires
        0 <= j <= props.len(),
    ensures
        changes_before(props, j) == part_start(props.map_values(|g: DepsWithIdView| group_output(g)), j),
    decreases j,
{
    if j > 0 {
        lemma_changes_before(props, j - 1);
    }
}

/// The updates of an entry are its dependency changes, property after property, each in
/// the order written: the change `k` of property `j` gives update
/// `changes_before(props, j) + k`. That update adds exactly when the change is a `+`,
/// changes `build_before` exactly when the property is `build_before`, is optional
/// exactly when `?` is written, and keeps the change's attributes and plugin id.
pub proof fn lemma_entry_updates(e: EntryView, j: int, k: int)
    requires
        0 <= j < e.deps.len(),
        0 <= k < e.deps[j].deps.deps.len(),
    ensures
        entry_output(e).dependencies.len() == changes_before(e.deps, e.deps.len() as int),
        ({
            let d = e.deps[j].deps.deps[k];
            let u = entry_output(e).dependencies[changes_before(e.deps, j) + k];
            &&& changes_before(e.deps, j) + k < entry_output(e).dependencies.len()
            &&& (u.kind == DependencyKind::Optional) == d.ty.maybe_opt
            &&& (u.kind == DependencyKind::Optional || u.kind == DependencyKind::Required)
            &&& (u.op == DependencyOp::AddBefore || u.op == DependencyOp::AddAfter) == (d.ty.op
                == PluginDependencyOperation::Add)
            &&& (u.op == DependencyOp::AddBefore || u.op == DependencyOp::RemoveBefore) == (e.deps[j].ident
                == "build_before"@)
            &&& u.attrs == d.attrs
            &&& u.id == d.id
        }),
{
    let ss = e.deps.map_values(|g: DepsWithIdView| group_output(g));
    lemma_changes_before(e.deps, j);
    lemma_changes_before(e.deps, e.deps.len() as int);
    assert(ss[j] == group_output(e.deps[j]));
    lemma_flatten_index(ss, j, k);
    lemma_flatten_len(ss);
}

} // verus!
