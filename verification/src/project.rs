//! Project descriptors and the steps that turn a parsed descriptor into an
//! effective one.

use vstd::prelude::*;
use crate::artifact::{views, Artifact, ArtifactView};
use crate::dependency::{
    normalize_gavs, normalized_entries, Dependencies, DependenciesView, Dependency,
    DependencyKeyView, DependencyManagement, DependencyView, Parent,
};
use crate::ordered_map::{distinct_keys, has_key, lemma_position, position, stored, value_of, Model};
use crate::text::owned;
use crate::version::Properties;

verus! {

/// A project descriptor: its own coordinate, an optional parent, its
/// dependencies, an optional dependency-management block and its properties.
#[derive(Debug)]
pub struct Project {
    pub parent: Option<Parent>,
    pub artifact_fqn: Artifact,
    pub dependency_management: Option<DependencyManagement>,
    pub dependencies: Dependencies,
    pub properties: Properties,
}

/// What a [`Project`] stands for.
pub struct ProjectView {
    pub parent: Option<ArtifactView>,
    pub artifact_fqn: ArtifactView,
    pub dependency_management: Option<DependenciesView>,
    pub dependencies: DependenciesView,
    pub properties: Seq<(Seq<char>, Seq<char>)>,
}

/// The view of an optional parent.
pub open spec fn parent_view(p: Option<Parent>) -> Option<ArtifactView> {
    match p {
        Some(p) => Some(p@),
        None => None,
    }
}

/// The view of an optional dependency-management block.
pub open spec fn management_view(m: Option<DependencyManagement>) -> Option<DependenciesView> {
    match m {
        Some(m) => Some(m@),
        None => None,
    }
}

impl View for Project {
    type V = ProjectView;

    open spec fn view(&self) -> ProjectView {
        ProjectView {
            parent: parent_view(self.parent),
            artifact_fqn: self.artifact_fqn@,
            dependency_management: management_view(self.dependency_management),
            dependencies: self.dependencies@,
            properties: self.properties@,
        }
    }
}

/// The dependencies of a child after it inherited from its parent: its own
/// entries, then those entries of the parent whose key the child lacks.
pub open spec fn inherited(child: DependenciesView, parent: DependenciesView) -> DependenciesView {
    child + parent.filter(|e: (DependencyKeyView, DependencyView)| !has_key(child, e.0))
}

/// The entries of `s` with every version interpolated against `props`.
pub open spec fn interpolated_entries(
    s: DependenciesView,
    props: Seq<(Seq<char>, Seq<char>)>,
) -> DependenciesView {
    s.map_values(|e: (DependencyKeyView, DependencyView)| (e.0, e.1.interpolate(props)))
}

/// The coordinates of the entries of `s` whose scope is `scope`, in order.
pub open spec fn artifacts_in_scope(s: DependenciesView, scope: Seq<char>) -> Seq<ArtifactView> {
    s.filter(|e: (DependencyKeyView, DependencyView)| e.1.has_scope(scope)).map_values(
        |e: (DependencyKeyView, DependencyView)| e.1.artifact_fqn,
    )
}

/// `own` after every entry of `imported` was stored into it, in order: an
/// imported entry replaces an own entry with the same key.
pub open spec fn merged(own: DependenciesView, imported: DependenciesView) -> DependenciesView
    decreases imported.len(),
{
    if imported.len() == 0 {
        own
    } else {
        stored(merged(own, imported.drop_last()), imported.last().0, imported.last().1)
    }
}

impl ProjectView {
    /// The descriptor as it is cached after a fetch: its packaging is `pom`;
    /// where it has a parent, the parent's packaging is `pom` too, the
    /// project's coordinate is normalized against the parent, and so are its
    /// dependencies and managed dependencies, with default packaging `jar`.
    pub open spec fn normalized(self) -> ProjectView {
        let id = self.artifact_fqn.with_packaging("pom"@);
        match self.parent {
            Some(p) => {
                let parent = p.with_packaging("pom"@);
                ProjectView {
                    parent: Some(parent),
                    artifact_fqn: id.normalize(parent, "pom"@),
                    dependency_management: match self.dependency_management {
                        Some(m) => Some(normalized_entries(m, parent, "jar"@)),
                        None => None,
                    },
                    dependencies: normalized_entries(self.dependencies, parent, "jar"@),
                    properties: self.properties,
                }
            },
            None => ProjectView { artifact_fqn: id, ..self },
        }
    }

    /// The descriptor with `project.version` set to `version`, where there
    /// is one.
    pub open spec fn with_project_version(self, version: Option<Seq<char>>) -> ProjectView {
        match version {
            Some(v) => ProjectView {
                properties: stored(self.properties, "project.version"@, v),
                ..self
            },
            None => self,
        }
    }

    /// The descriptor after it inherited the dependencies of `parent`.
    pub open spec fn inherit(self, parent: ProjectView) -> ProjectView {
        ProjectView { dependencies: inherited(self.dependencies, parent.dependencies), ..self }
    }

    /// The descriptor with the versions of its managed dependencies
    /// interpolated against its own properties.
    pub open spec fn interpolate_management(self) -> ProjectView {
        match self.dependency_management {
            Some(m) => ProjectView {
                dependency_management: Some(interpolated_entries(m, self.properties)),
                ..self
            },
            None => self,
        }
    }

    /// The coordinates of the BOMs that the descriptor imports.
    pub open spec fn bom_references(self) -> Seq<ArtifactView> {
        match self.dependency_management {
            Some(m) => artifacts_in_scope(m, "import"@),
            None => Seq::empty(),
        }
    }

    /// The descriptor after the managed dependencies of `bom` were merged
    /// into its own. A descriptor without a dependency-management block
    /// stays as it is, and so does one that imports a BOM without one.
    pub open spec fn import(self, bom: ProjectView) -> ProjectView {
        match (self.dependency_management, bom.dependency_management) {
            (Some(own), Some(imported)) => ProjectView {
                dependency_management: Some(merged(own, imported)),
                ..self
            },
            _ => self,
        }
    }

    /// The coordinates of the `compile`-scope dependencies, in order.
    pub open spec fn compile_dependencies(self) -> Seq<ArtifactView> {
        artifacts_in_scope(self.dependencies, "compile"@)
    }

    /// The descriptor before its BOMs are imported: `project.version` is
    /// set, the dependencies of the effective parent are inherited, and the
    /// managed versions are interpolated.
    pub open spec fn prepared(
        self,
        version: Option<Seq<char>>,
        parent: Option<ProjectView>,
    ) -> ProjectView {
        let versioned = self.with_project_version(version);
        (match parent {
            Some(q) => versioned.inherit(q),
            None => versioned,
        }).interpolate_management()
    }
}

/// First writer wins: after a child inherited from its parent, a key of the
/// child still maps to the child's dependency, a key that only the parent
/// has maps to the parent's dependency, and there are no other keys.
pub proof fn lemma_inherited(child: DependenciesView, parent: DependenciesView)
    requires
        distinct_keys(child),
        distinct_keys(parent),
    ensures
        distinct_keys(inherited(child, parent)),
        forall|k: DependencyKeyView|
            has_key(child, k) ==> has_key(inherited(child, parent), k) && value_of(
                inherited(child, parent),
                k,
            ) == value_of(child, k),
        forall|k: DependencyKeyView|
            !has_key(child, k) && has_key(parent, k) ==> has_key(inherited(child, parent), k)
                && value_of(inherited(child, parent), k) == value_of(parent, k),
        forall|k: DependencyKeyView|
            has_key(inherited(child, parent), k) ==> has_key(child, k) || has_key(parent, k),
{
    let pred = |e: (DependencyKeyView, DependencyView)| !has_key(child, e.0);
    let extra = parent.filter(pred);
    let m = inherited(child, parent);
    assert(m == child + extra);
    lemma_filter_keeps_distinct(parent, pred);
    assert(distinct_keys(m)) by {
        assert forall|i: int, j: int| 0 <= i < j < m.len() implies (#[trigger] m[i]).0 != (
        #[trigger] m[j]).0 by {
            if j < child.len() {
                assert(child[i].0 != child[j].0);
            } else if i < child.len() {
                let e = extra[j - child.len()];
                parent.lemma_filter_pred(pred, j - child.len());
                assert(m[i] == child[i]);
                if child[i].0 == e.0 {
                    assert(has_key(child, e.0));
                }
            } else {
                assert(extra[i - child.len()].0 != extra[j - child.len()].0);
            }
        }
    }
    assert forall|k: DependencyKeyView| has_key(child, k) implies has_key(m, k) && value_of(m, k)
        == value_of(child, k) by {
        let p = position(child, k);
        lemma_position(child, p);
        assert(m[p] == child[p]);
        lemma_position(m, p);
    }
    assert forall|k: DependencyKeyView| !has_key(child, k) && has_key(parent, k) implies has_key(
        m,
        k,
    ) && value_of(m, k) == value_of(parent, k) by {
        let p = position(parent, k);
        lemma_position(parent, p);
        parent.lemma_filter_contains(pred, p);
        let q = choose|q: int| 0 <= q < extra.len() && extra[q] == parent[p];
        assert(m[child.len() + q] == parent[p]);
        lemma_position(m, child.len() + q);
    }
    assert forall|k: DependencyKeyView| has_key(m, k) implies has_key(child, k) || has_key(
        parent,
        k,
    ) by {
        let p = position(m, k);
        if p < child.len() {
            assert(child[p].0 == k);
        } else {
            let e = extra[p - child.len()];
            assert(extra.contains(e));
            parent.lemma_filter_contains_rev(pred, e);
            let q = choose|q: int| 0 <= q < parent.len() && parent[q] == e;
            assert(parent[q].0 == k);
        }
    }
}

/// Packaging discipline: a normalized descriptor has packaging `pom`.
/// Where it has a parent, the parent has packaging `pom` too, and each of
/// its dependencies is the normalized form of a parsed one: its packaging
/// is the parsed one where there was one, else `jar`.
pub proof fn lemma_packaging_discipline(raw: ProjectView)
    ensures
        raw.normalized().artifact_fqn.packaging == Some("pom"@),
        raw.parent matches Some(q) ==> {
            let parent = q.with_packaging("pom"@);
            let deps = raw.normalized().dependencies;
            &&& raw.normalized().parent == Some(parent)
            &&& forall|i: int|
                0 <= i < deps.len() ==> exists|j: int|
                    0 <= j < raw.dependencies.len() && (#[trigger] deps[i]).1 == (
                    #[trigger] raw.dependencies[j]).1.normalize(parent, "jar"@)
            &&& forall|i: int|
                0 <= i < deps.len() ==> (#[trigger] deps[i]).1.artifact_fqn.packaging is Some
        },
{
    if let Some(q) = raw.parent {
        let parent = q.with_packaging("pom"@);
        crate::dependency::lemma_normalized_entries(raw.dependencies, parent, "jar"@);
        let deps = raw.normalized().dependencies;
        assert(deps == normalized_entries(raw.dependencies, parent, "jar"@));
        assert forall|i: int| 0 <= i < deps.len() implies (
        #[trigger] deps[i]).1.artifact_fqn.packaging is Some by {
            let j = choose|j: int|
                0 <= j < raw.dependencies.len() && deps[i].1 == (
                #[trigger] raw.dependencies[j]).1.normalize(parent, "jar"@);
        }
    }
}

/// Filtering entries keeps their keys distinct.
pub proof fn lemma_filter_keeps_distinct(
    s: DependenciesView,
    pred: spec_fn((DependencyKeyView, DependencyView)) -> bool,
)
    requires
        distinct_keys(s),
    ensures
        distinct_keys(s.filter(pred)),
    decreases s.len(),
{
    reveal(Seq::filter);
    if s.len() > 0 {
        let rest = s.drop_last();
        assert(distinct_keys(rest)) by {
            assert forall|i: int, j: int| 0 <= i < j < rest.len() implies (#[trigger] rest[i]).0
                != (#[trigger] rest[j]).0 by {
                assert(s[i].0 != s[j].0);
            }
        }
        lemma_filter_keeps_distinct(rest, pred);
        let f = rest.filter(pred);
        if pred(s.last()) {
            assert(s.filter(pred) == f.push(s.last()));
            let t = f.push(s.last());
            assert forall|i: int, j: int| 0 <= i < j < t.len() implies (#[trigger] t[i]).0 != (
            #[trigger] t[j]).0 by {
                if j < f.len() {
                    assert(f[i].0 != f[j].0);
                } else {
                    assert(f.contains(f[i]));
                    rest.lemma_filter_contains_rev(pred, f[i]);
                    let q = choose|q: int| 0 <= q < rest.len() && rest[q] == f[i];
                    assert(s[q].0 != s[s.len() - 1].0);
                }
            }
        }
    }
}

/// Imported entries overwrite: after a merge, a key of the imported block
/// maps to the imported dependency and every other key is as before.
pub proof fn lemma_merged(own: DependenciesView, imported: DependenciesView)
    requires
        distinct_keys(own),
        distinct_keys(imported),
    ensures
        distinct_keys(merged(own, imported)),
        forall|k: DependencyKeyView|
            has_key(merged(own, imported), k) <==> has_key(own, k) || has_key(imported, k),
        forall|k: DependencyKeyView|
            has_key(imported, k) ==> value_of(merged(own, imported), k) == value_of(imported, k),
        forall|k: DependencyKeyView|
            !has_key(imported, k) && has_key(own, k) ==> value_of(merged(own, imported), k)
                == value_of(own, k),
    decreases imported.len(),
{
    if imported.len() > 0 {
        let rest = imported.drop_last();
        let last = imported.last();
        assert(distinct_keys(rest)) by {
            assert forall|i: int, j: int| 0 <= i < j < rest.len() implies (#[trigger] rest[i]).0
                != (#[trigger] rest[j]).0 by {
                assert(imported[i].0 != imported[j].0);
            }
        }
        lemma_merged(own, rest);
        let before = merged(own, rest);
        crate::ordered_map::lemma_stored(before, last.0, last.1);
        let after = merged(own, imported);
        assert(after == stored(before, last.0, last.1));
        lemma_position(imported, imported.len() - 1);
        assert(!has_key(rest, last.0)) by {
            if has_key(rest, last.0) {
                let p = position(rest, last.0);
                assert(imported[p].0 != imported[imported.len() - 1].0);
            }
        }
        assert forall|k: DependencyKeyView| has_key(imported, k) <==> (k == last.0 || has_key(
            rest,
            k,
        )) by {
            if has_key(imported, k) {
                let p = position(imported, k);
                if p < rest.len() {
                    assert(rest[p].0 == k);
                }
            }
            if has_key(rest, k) {
                let p = position(rest, k);
                assert(imported[p].0 == k);
            }
        }
        assert forall|k: DependencyKeyView| has_key(imported, k) implies value_of(after, k)
            == value_of(imported, k) by {
            if k != last.0 {
                let p = position(rest, k);
                lemma_position(rest, p);
                assert(imported[p] == rest[p]);
                lemma_position(imported, p);
            }
        }
    }
}

impl Project {
    /// Brings a parsed descriptor into the form in which it is cached.
    pub fn normalized(self) -> (p: Project)
        ensures
            p@ == self@.normalized(),
    {
        let Project { parent, artifact_fqn, dependency_management, dependencies, properties } =
            self;
        let id = artifact_fqn.with_packaging("pom");
        match parent {
            Some(parent) => {
                let parent_fqn = parent.artifact_fqn.with_packaging("pom");
                let id = id.normalize(&parent_fqn, "pom");
                let dependencies = normalize_gavs(dependencies, &parent_fqn, "jar");
                let dependency_management = match dependency_management {
                    Some(m) => Some(
                        DependencyManagement {
                            dependencies: normalize_gavs(m.dependencies, &parent_fqn, "jar"),
                        },
                    ),
                    None => None,
                };
                Project {
                    parent: Some(Parent { artifact_fqn: parent_fqn }),
                    artifact_fqn: id,
                    dependency_management,
                    dependencies,
                    properties,
                }
            },
            None => Project {
                parent: None,
                artifact_fqn: id,
                dependency_management,
                dependencies,
                properties,
            },
        }
    }

    /// Sets the property `project.version` to `version`, where there is one.
    pub fn set_project_version(&mut self, version: &Option<String>)
        ensures
            final(self)@ == old(self)@.with_project_version(crate::text::text(*version)),
    {
        match version {
            Some(v) => {
                self.properties.insert(owned("project.version"), v.clone());
            },
            None => {},
        }
    }

    /// Adds every dependency of `parent` whose key this project lacks. The
    /// project's own dependencies stay as they are.
    pub fn inherit_dependencies(&mut self, parent: &Project)
        ensures
            final(self)@ == old(self)@.inherit(parent@),
    {
        let ghost child = self.dependencies@;
        let ghost pred = |e: (DependencyKeyView, DependencyView)| !has_key(child, e.0);
        let n = parent.dependencies.len();
        let mut i: usize = 0;
        proof {
            use_type_invariant(&parent.dependencies);
            assert(parent.dependencies@.take(0).filter(pred) =~= Seq::empty()) by {
                reveal(Seq::filter);
            }
            assert(child + Seq::empty() =~= child);
        }
        while i < n
            invariant
                n == parent.dependencies@.len(),
                i <= n,
                distinct_keys(parent.dependencies@),
                pred == |e: (DependencyKeyView, DependencyView)| !has_key(child, e.0),
                self.dependencies@ == child + parent.dependencies@.take(i as int).filter(pred),
                self.parent == old(self).parent,
                self.artifact_fqn == old(self).artifact_fqn,
                self.dependency_management == old(self).dependency_management,
                self.properties == old(self).properties,
            decreases n - i,
        {
            let key = parent.dependencies.key_at(i);
            let ghost all = parent.dependencies@;
            let ghost seen = all.take(i as int);
            let ghost extra = seen.filter(pred);
            proof {
                all.lemma_take_succ_push(i as int);
                seen.lemma_filter_push(all[i as int], pred);
                // A key met before position `i` differs from the key at `i`.
                assert(has_key(child + extra, key@) == has_key(child, key@)) by {
                    if has_key(child + extra, key@) {
                        let p = position(child + extra, key@);
                        if p < child.len() {
                            assert(child[p].0 == key@);
                        } else {
                            let e = extra[p - child.len()];
                            assert(extra.contains(e));
                            seen.lemma_filter_contains_rev(pred, e);
                            let q = choose|q: int| 0 <= q < seen.len() && seen[q] == e;
                            assert(all[q].0 != all[i as int].0);
                        }
                    }
                    if has_key(child, key@) {
                        let p = position(child, key@);
                        assert((child + extra)[p].0 == key@);
                    }
                }
            }
            if !self.dependencies.contains_key(key) {
                let value = parent.dependencies.value_at(i).clone();
                self.dependencies.insert(key.clone(), value);
                assert(self.dependencies@ =~= child + all.take(i + 1).filter(pred));
            }
            i += 1;
        }
        assert(parent.dependencies@.take(n as int) =~= parent.dependencies@);
    }

    /// Interpolates the version of every managed dependency against the
    /// project's own properties.
    pub fn interpolate_management(&mut self)
        ensures
            final(self)@ == old(self)@.interpolate_management(),
    {
        let mut held: Option<DependencyManagement> = None;
        core::mem::swap(&mut self.dependency_management, &mut held);
        match held {
            Some(m) => {
                let mut out: Dependencies = crate::ordered_map::OrderedMap::new();
                let n = m.dependencies.len();
                let mut i: usize = 0;
                proof {
                    use_type_invariant(&m.dependencies);
                }
                while i < n
                    invariant
                        n == m.dependencies@.len(),
                        i <= n,
                        distinct_keys(m.dependencies@),
                        out@ == interpolated_entries(
                            m.dependencies@.take(i as int),
                            self.properties@,
                        ),
                    decreases n - i,
                {
                    let key = m.dependencies.key_at(i).clone();
                    let dep = m.dependencies.value_at(i);
                    let value = Dependency {
                        artifact_fqn: dep.artifact_fqn.interpolate(&self.properties),
                        scope: crate::text::copy_text(&dep.scope),
                    };
                    proof {
                        let before = out@;
                        let all = m.dependencies@;
                        assert(!has_key(before, key@)) by {
                            if has_key(before, key@) {
                                let p = position(before, key@);
                                assert(all[p].0 != all[i as int].0);
                            }
                        }
                    }
                    out.insert(key, value);
                    i += 1;
                    assert(out@ =~= interpolated_entries(
                        m.dependencies@.take(i as int),
                        self.properties@,
                    ));
                }
                assert(m.dependencies@.take(n as int) =~= m.dependencies@);
                self.dependency_management = Some(DependencyManagement { dependencies: out });
            },
            None => {},
        }
    }

    /// The coordinates of the BOMs that this project imports: its managed
    /// dependencies with scope `import`, in order.
    pub fn bom_references(&self) -> (r: Vec<Artifact>)
        ensures
            views(r@) == self@.bom_references(),
    {
        match &self.dependency_management {
            Some(m) => artifacts_with_scope(&m.dependencies, "import"),
            None => {
                let r: Vec<Artifact> = Vec::new();
                assert(views(r@) =~= Seq::empty());
                r
            },
        }
    }

    /// Merges the managed dependencies of `bom` into those of this project;
    /// an entry of the BOM replaces an own entry with the same key.
    pub fn import_management(&mut self, bom: &Project)
        ensures
            final(self)@ == old(self)@.import(bom@),
    {
        let imported = match &bom.dependency_management {
            Some(b) => &b.dependencies,
            None => {
                return ;
            },
        };
        let mut held: Option<DependencyManagement> = None;
        core::mem::swap(&mut self.dependency_management, &mut held);
        match held {
            Some(m) => {
                let ghost own = m.dependencies@;
                let mut out = m.dependencies;
                let n = imported.len();
                let mut i: usize = 0;
                while i < n
                    invariant
                        n == imported@.len(),
                        i <= n,
                        out@ == merged(own, imported@.take(i as int)),
                    decreases n - i,
                {
                    proof {
                        let s = imported@.take(i + 1);
                        assert(s.drop_last() =~= imported@.take(i as int));
                        assert(s.last() == imported@[i as int]);
                    }
                    out.insert(imported.key_at(i).clone(), imported.value_at(i).clone());
                    i += 1;
                }
                assert(imported@.take(n as int) =~= imported@);
                self.dependency_management = Some(DependencyManagement { dependencies: out });
            },
            None => {},
        }
    }

    /// The coordinates of the dependencies with scope `compile`, in the
    /// order of their declaration.
    pub fn compile_dependencies(&self) -> (r: Vec<Artifact>)
        ensures
            views(r@) == self@.compile_dependencies(),
    {
        artifacts_with_scope(&self.dependencies, "compile")
    }
}

/// The coordinates of the entries of `deps` whose scope is `scope`, in order.
pub fn artifacts_with_scope(deps: &Dependencies, scope: &str) -> (r: Vec<Artifact>)
    ensures
        views(r@) == artifacts_in_scope(deps@, scope@),
{
    let ghost pred = |e: (DependencyKeyView, DependencyView)| e.1.has_scope(scope@);
    let ghost pick = |e: (DependencyKeyView, DependencyView)| e.1.artifact_fqn;
    let mut out: Vec<Artifact> = Vec::new();
    let n = deps.len();
    let mut i: usize = 0;
    proof {
        assert(deps@.take(0).filter(pred) =~= Seq::empty()) by {
            reveal(Seq::filter);
        }
        assert(views(out@) =~= deps@.take(0).filter(pred).map_values(pick));
    }
    while i < n
        invariant
            n == deps@.len(),
            i <= n,
            pred == |e: (DependencyKeyView, DependencyView)| e.1.has_scope(scope@),
            pick == |e: (DependencyKeyView, DependencyView)| e.1.artifact_fqn,
            views(out@) == deps@.take(i as int).filter(pred).map_values(pick),
        decreases n - i,
    {
        let dep = deps.value_at(i);
        proof {
            deps@.lemma_take_succ_push(i as int);
            deps@.take(i as int).lemma_filter_push(deps@[i as int], pred);
        }
        if dep.has_scope(scope) {
            let ghost before = out@;
            let a = dep.artifact_fqn.clone();
            out.push(a);
            proof {
                deps@.take(i as int).filter(pred).lemma_push_map_commute(pick, deps@[i as int]);
                before.lemma_push_map_commute(|a: Artifact| a@, a);
            }
        }
        i += 1;
    }
    assert(deps@.take(n as int) =~= deps@);
    out
}

impl Clone for Project {
    fn clone(&self) -> (p: Self)
        ensures
            p@ == self@,
    {
        Project {
            parent: match &self.parent {
                Some(p) => Some(p.clone()),
                None => None,
            },
            artifact_fqn: self.artifact_fqn.clone(),
            dependency_management: match &self.dependency_management {
                Some(m) => Some(m.clone()),
                None => None,
            },
            dependencies: self.dependencies.duplicate(),
            properties: self.properties.duplicate(),
        }
    }
}

impl Model for Project {
    fn duplicate(&self) -> (r: Self) {
        self.clone()
    }
}

} // verus!
