//! Dependencies and the keys under which a project holds them.

use vstd::prelude::*;
use vstd::std_specs::cmp::PartialEqSpecImpl;
use vstd::string::StringExecFns;
use crate::artifact::{or_else, or_unknown, Artifact, ArtifactView};
use crate::ordered_map::{distinct_keys, lemma_stored, stored, Key, Model, OrderedMap};
use crate::text::{copy_text, is_text, owned, same_text, text};

verus! {

/// The identity of a dependency inside one project: group and name.
/// Version and packaging take no part in it.
#[derive(Debug, Eq, Hash)]
pub struct DependencyKey {
    pub group_id: Option<String>,
    pub artifact_id: Option<String>,
}

/// What a [`DependencyKey`] stands for.
pub struct DependencyKeyView {
    pub group_id: Option<Seq<char>>,
    pub artifact_id: Option<Seq<char>>,
}

impl DependencyKeyView {
    /// `group:name`, with `?` for an absent field.
    pub open spec fn display(self) -> Seq<char> {
        or_unknown(self.group_id) + ":"@ + or_unknown(self.artifact_id)
    }
}

impl View for DependencyKey {
    type V = DependencyKeyView;

    open spec fn view(&self) -> DependencyKeyView {
        DependencyKeyView { group_id: text(self.group_id), artifact_id: text(self.artifact_id) }
    }
}

impl DependencyKey {
    /// `group:name`, with `?` for an absent field.
    pub fn to_string(&self) -> (r: String)
        ensures
            r@ == self@.display(),
    {
        let mut out = String::new();
        match &self.group_id {
            Some(s) => out.append(s.as_str()),
            None => out.append("?"),
        }
        out.append(":");
        match &self.artifact_id {
            Some(s) => out.append(s.as_str()),
            None => out.append("?"),
        }
        assert(out@ =~= self@.display());
        out
    }
}

impl Clone for DependencyKey {
    fn clone(&self) -> (k: Self)
        ensures
            k@ == self@,
    {
        DependencyKey {
            group_id: copy_text(&self.group_id),
            artifact_id: copy_text(&self.artifact_id),
        }
    }
}

impl PartialEq for DependencyKey {
    fn eq(&self, other: &Self) -> (b: bool) {
        let group = same_text(&self.group_id, &other.group_id);
        let name = same_text(&self.artifact_id, &other.artifact_id);
        assert((group && name) == (self@ == other@));
        group && name
    }
}

impl PartialEqSpecImpl for DependencyKey {
    open spec fn obeys_eq_spec() -> bool {
        true
    }

    open spec fn eq_spec(&self, other: &Self) -> bool {
        self@ == other@
    }
}

impl Model for DependencyKey {
    fn duplicate(&self) -> (r: Self) {
        self.clone()
    }
}

impl Key for DependencyKey {
    fn matches(&self, other: &Self) -> (b: bool) {
        *self == *other
    }
}

/// A coordinate together with the scope in which it is needed.
#[derive(Debug)]
pub struct Dependency {
    pub artifact_fqn: Artifact,
    pub scope: Option<String>,
}

/// What a [`Dependency`] stands for.
pub struct DependencyView {
    pub artifact_fqn: ArtifactView,
    pub scope: Option<Seq<char>>,
}

impl DependencyView {
    /// The key of this dependency.
    pub open spec fn key(self) -> DependencyKeyView {
        DependencyKeyView {
            group_id: self.artifact_fqn.group_id,
            artifact_id: self.artifact_fqn.artifact_id,
        }
    }

    /// The dependency with its coordinate normalized against `parent` and a
    /// missing scope set to `compile`.
    pub open spec fn normalize(
        self,
        parent: ArtifactView,
        default_packaging: Seq<char>,
    ) -> DependencyView {
        DependencyView {
            artifact_fqn: self.artifact_fqn.normalize(parent, default_packaging),
            scope: or_else(self.scope, Some("compile"@)),
        }
    }

    /// The dependency with its version interpolated against `props`.
    pub open spec fn interpolate(self, props: Seq<(Seq<char>, Seq<char>)>) -> DependencyView {
        DependencyView { artifact_fqn: self.artifact_fqn.interpolate(props), scope: self.scope }
    }

    /// Whether the scope is present and equal to `scope`.
    pub open spec fn has_scope(self, scope: Seq<char>) -> bool {
        self.scope == Some(scope)
    }
}

impl View for Dependency {
    type V = DependencyView;

    open spec fn view(&self) -> DependencyView {
        DependencyView { artifact_fqn: self.artifact_fqn@, scope: text(self.scope) }
    }
}

impl Dependency {
    /// The key under which a project holds this dependency.
    pub fn get_key(&self) -> (k: DependencyKey)
        ensures
            k@ == self@.key(),
    {
        DependencyKey {
            group_id: copy_text(&self.artifact_fqn.group_id),
            artifact_id: copy_text(&self.artifact_fqn.artifact_id),
        }
    }

    /// Normalizes the coordinate against `parent_id` and sets a missing
    /// scope to `compile`.
    pub fn normalize(self, parent_id: &Artifact, default_packaging: &str) -> (d: Self)
        ensures
            d@ == self@.normalize(parent_id@, default_packaging@),
    {
        Dependency {
            artifact_fqn: self.artifact_fqn.normalize(parent_id, default_packaging),
            scope: match self.scope {
                Some(s) => Some(s),
                None => Some(owned("compile")),
            },
        }
    }

    /// Whether the scope is present and equal to `scope`.
    pub fn has_scope(&self, scope: &str) -> (b: bool)
        ensures
            b == self@.has_scope(scope@),
    {
        is_text(&self.scope, scope)
    }
}

impl Clone for Dependency {
    fn clone(&self) -> (d: Self)
        ensures
            d@ == self@,
    {
        Dependency { artifact_fqn: self.artifact_fqn.clone(), scope: copy_text(&self.scope) }
    }
}

impl Default for Dependency {
    fn default() -> (d: Self)
        ensures
            d@.scope is None,
            d@.artifact_fqn.group_id is None,
            d@.artifact_fqn.artifact_id is None,
            d@.artifact_fqn.version is None,
            d@.artifact_fqn.packaging is None,
            d@.artifact_fqn.classifier is None,
    {
        Dependency { artifact_fqn: Artifact::default(), scope: None }
    }
}

impl Model for Dependency {
    fn duplicate(&self) -> (r: Self) {
        self.clone()
    }
}

/// The dependencies of a project by key, in the order of their declaration.
pub type Dependencies = OrderedMap<DependencyKey, Dependency>;

/// What a map of dependencies stands for.
pub type DependenciesView = Seq<(DependencyKeyView, DependencyView)>;

/// The coordinate of a project's parent.
#[derive(Debug)]
pub struct Parent {
    pub artifact_fqn: Artifact,
}

impl View for Parent {
    type V = ArtifactView;

    open spec fn view(&self) -> ArtifactView {
        self.artifact_fqn@
    }
}

impl Clone for Parent {
    fn clone(&self) -> (p: Self)
        ensures
            p@ == self@,
    {
        Parent { artifact_fqn: self.artifact_fqn.clone() }
    }
}

/// The dependency-management block of a project. Entries whose scope is
/// `import` point to BOMs.
#[derive(Debug)]
pub struct DependencyManagement {
    pub dependencies: Dependencies,
}

impl View for DependencyManagement {
    type V = DependenciesView;

    open spec fn view(&self) -> DependenciesView {
        self.dependencies@
    }
}

impl Clone for DependencyManagement {
    fn clone(&self) -> (m: Self)
        ensures
            m@ == self@,
    {
        DependencyManagement { dependencies: self.dependencies.duplicate() }
    }
}

/// The entries of `s`, each normalized against `parent` and stored under
/// its own key, in order: of two entries that come to the same key the later
/// one is kept, at the place of the earlier.
pub open spec fn normalized_entries(
    s: DependenciesView,
    parent: ArtifactView,
    default_packaging: Seq<char>,
) -> DependenciesView
    decreases s.len(),
{
    if s.len() == 0 {
        Seq::empty()
    } else {
        let d = s.last().1.normalize(parent, default_packaging);
        stored(normalized_entries(s.drop_last(), parent, default_packaging), d.key(), d)
    }
}

/// Normalization leaves no gaps: every normalized entry is the normalized
/// form of a given one and stands under its own key, and no key stands
/// twice. So its packaging is the given one where one was given, else the
/// default, and its scope is never absent.
pub proof fn lemma_normalized_entries(
    s: DependenciesView,
    parent: ArtifactView,
    default_packaging: Seq<char>,
)
    ensures
        distinct_keys(normalized_entries(s, parent, default_packaging)),
        forall|i: int|
            0 <= i < normalized_entries(s, parent, default_packaging).len() ==> {
                let e = #[trigger] normalized_entries(s, parent, default_packaging)[i];
                &&& e.0 == e.1.key()
                &&& exists|j: int|
                    0 <= j < s.len() && e.1 == (#[trigger] s[j]).1.normalize(
                        parent,
                        default_packaging,
                    )
            },
    decreases s.len(),
{
    if s.len() > 0 {
        let rest = normalized_entries(s.drop_last(), parent, default_packaging);
        lemma_normalized_entries(s.drop_last(), parent, default_packaging);
        let d = s.last().1.normalize(parent, default_packaging);
        let out = normalized_entries(s, parent, default_packaging);
        lemma_stored(rest, d.key(), d);
        assert forall|i: int| 0 <= i < out.len() implies {
            let e = #[trigger] out[i];
            &&& e.0 == e.1.key()
            &&& exists|j: int|
                0 <= j < s.len() && e.1 == (#[trigger] s[j]).1.normalize(parent, default_packaging)
        } by {
            let e = out[i];
            if e == (d.key(), d) {
                assert(e.1 == s[s.len() - 1].1.normalize(parent, default_packaging));
            } else {
                assert(e == rest[i]);
                let j = choose|j: int|
                    0 <= j < s.drop_last().len() && rest[i].1 == (
                    #[trigger] s.drop_last()[j]).1.normalize(parent, default_packaging);
                assert(e.1 == s[j].1.normalize(parent, default_packaging));
            }
        }
    }
}

/// Normalizes every dependency against `parent_fqn` and stores it under the
/// key of the normalized dependency.
pub fn normalize_gavs(
    dependencies: Dependencies,
    parent_fqn: &Artifact,
    default_packaging: &str,
) -> (r: Dependencies)
    ensures
        r@ == normalized_entries(dependencies@, parent_fqn@, default_packaging@),
{
    let mut out: Dependencies = OrderedMap::new();
    let n = dependencies.len();
    let mut i: usize = 0;
    while i < n
        invariant
            n == dependencies@.len(),
            i <= n,
            out@ == normalized_entries(
                dependencies@.take(i as int),
                parent_fqn@,
                default_packaging@,
            ),
        decreases n - i,
    {
        let dep = dependencies.value_at(i).clone().normalize(parent_fqn, default_packaging);
        let key = dep.get_key();
        proof {
            let s = dependencies@.take(i + 1);
            assert(s.drop_last() =~= dependencies@.take(i as int));
            assert(s.last() == dependencies@[i as int]);
        }
        out.insert(key, dep);
        i += 1;
    }
    assert(dependencies@.take(n as int) =~= dependencies@);
    out
}

} // verus!
