//! The descriptor cache: fetched projects by their `pom` coordinate.

use vstd::prelude::*;
use crate::artifact::{Artifact, ArtifactView};
use crate::ordered_map::{
    distinct_keys, has_key, lemma_position, lemma_stored, position, stored, value_of, OrderedMap,
};
use crate::project::{Project, ProjectView};

verus! {

/// What a cache stands for: coordinates with their projects, in the order
/// in which the coordinates were first stored.
pub type CacheView = Seq<(ArtifactView, ProjectView)>;

/// The coordinate under which the cache holds the project of `id`:
/// `id` with packaging `pom`.
pub open spec fn cache_key(id: ArtifactView) -> ArtifactView {
    id.with_packaging("pom"@)
}

/// The project as the cache holds it: its coordinate has packaging `pom`.
pub open spec fn cache_form(p: ProjectView) -> ProjectView {
    ProjectView { artifact_fqn: cache_key(p.artifact_fqn), ..p }
}

/// Every entry is stored under its project's own coordinate, and that
/// coordinate has packaging `pom`.
pub open spec fn disciplined(s: CacheView) -> bool {
    forall|i: int|
        0 <= i < s.len() ==> (#[trigger] s[i]).0 == s[i].1.artifact_fqn && s[i].0.packaging == Some(
            "pom"@,
        )
}

/// The project that the cache holds for `id`, if any.
pub open spec fn cached(s: CacheView, id: ArtifactView) -> Option<ProjectView> {
    if has_key(s, cache_key(id)) {
        Some(value_of(s, cache_key(id)))
    } else {
        None
    }
}

/// The cache after `p` was put into it.
pub open spec fn cache_put(s: CacheView, p: ProjectView) -> CacheView {
    stored(s, cache_key(p.artifact_fqn), cache_form(p))
}

/// Nothing was evicted between two caches: every coordinate that the
/// first holds, the second holds too.
pub open spec fn extends(before: CacheView, after: CacheView) -> bool {
    forall|k: ArtifactView| has_key(before, k) ==> has_key(after, k)
}

/// Putting a project evicts nothing.
pub proof fn lemma_put_extends(s: CacheView, p: ProjectView)
    requires
        distinct_keys(s),
    ensures
        extends(s, cache_put(s, p)),
        distinct_keys(cache_put(s, p)),
{
    lemma_stored(s, cache_key(p.artifact_fqn), cache_form(p));
}

/// Putting a project keeps the cache disciplined.
pub proof fn lemma_put_disciplined(s: CacheView, p: ProjectView)
    requires
        disciplined(s),
    ensures
        disciplined(cache_put(s, p)),
{
    let t = cache_put(s, p);
    assert forall|i: int| 0 <= i < t.len() implies (#[trigger] t[i]).0 == t[i].1.artifact_fqn
        && t[i].0.packaging == Some("pom"@) by {
        if i < s.len() && t[i] == s[i] {
            assert(s[i].0 == s[i].1.artifact_fqn);
        }
    }
}

/// Cache hit equivalence: once a project whose own coordinate is the
/// requested one (with packaging `pom`) has been put, looking the
/// coordinate up gives that very project, and it keeps doing so.
pub proof fn lemma_put_then_cached(s: CacheView, id: ArtifactView, p: ProjectView)
    requires
        distinct_keys(s),
        cache_key(p.artifact_fqn) == cache_key(id),
    ensures
        cached(cache_put(s, p), id) == Some(cache_form(p)),
        distinct_keys(cache_put(s, p)),
{
    lemma_stored(s, cache_key(p.artifact_fqn), cache_form(p));
}

/// Putting a project leaves what the cache holds for other coordinates.
pub proof fn lemma_put_keeps_others(s: CacheView, id: ArtifactView, p: ProjectView)
    requires
        distinct_keys(s),
        cache_key(p.artifact_fqn) != cache_key(id),
    ensures
        cached(cache_put(s, p), id) == cached(s, id),
{
    lemma_stored(s, cache_key(p.artifact_fqn), cache_form(p));
}

/// A memoizing store of fetched projects. Nothing is ever evicted.
#[derive(Debug)]
pub struct ProjectCache {
    projects: OrderedMap<Artifact, Project>,
}

impl View for ProjectCache {
    type V = CacheView;

    closed spec fn view(&self) -> CacheView {
        self.projects@
    }
}

impl ProjectCache {
    /// Every cache has distinct coordinates and is disciplined.
    #[verifier::type_invariant]
    pub open spec fn well_formed(&self) -> bool {
        distinct_keys(self@) && disciplined(self@)
    }

    /// An empty cache.
    pub fn new() -> (c: Self)
        ensures
            c@ == Seq::<(ArtifactView, ProjectView)>::empty(),
    {
        ProjectCache { projects: OrderedMap::new() }
    }

    /// The number of cached projects.
    pub fn len(&self) -> (n: usize)
        ensures
            n == self@.len(),
    {
        self.projects.len()
    }

    /// Whether the cache holds a project for `id`.
    pub fn contains(&self, id: &Artifact) -> (b: bool)
        ensures
            b == (cached(self@, id@) is Some),
    {
        let key = id.with_packaging("pom");
        self.projects.contains_key(&key)
    }

    /// A copy of the project that the cache holds for `id`, whatever the
    /// packaging of `id`.
    pub fn get(&self, id: &Artifact) -> (r: Option<Project>)
        ensures
            match r {
                Some(p) => cached(self@, id@) == Some(p@) && p@.artifact_fqn == cache_key(id@),
                None => cached(self@, id@) is None,
            },
    {
        proof {
            use_type_invariant(self);
        }
        let key = id.with_packaging("pom");
        match self.projects.get(&key) {
            Some(p) => {
                proof {
                    let i = position(self@, key@);
                    lemma_position(self@, i);
                }
                Some(p.clone())
            },
            None => None,
        }
    }

    /// Stores `project` under its own coordinate with packaging `pom`; the
    /// stored project carries that coordinate.
    pub fn put(&mut self, project: Project)
        ensures
            final(self)@ == cache_put(old(self)@, project@),
    {
        proof {
            use_type_invariant(&*self);
            lemma_put_disciplined(self@, project@);
            lemma_stored(self@, cache_key(project@.artifact_fqn), cache_form(project@));
        }
        let Project { parent, artifact_fqn, dependency_management, dependencies, properties } =
            project;
        let key = artifact_fqn.with_packaging("pom");
        let project = Project {
            parent,
            artifact_fqn: key.clone(),
            dependency_management,
            dependencies,
            properties,
        };
        let mut held = ProjectCache { projects: OrderedMap::new() };
        core::mem::swap(self, &mut held);
        let mut projects = held.projects;
        projects.insert(key, project);
        *self = ProjectCache { projects };
    }

    /// Takes a parsed descriptor in: normalizes it, stores it under its own
    /// coordinate and gives back what was stored.
    pub fn take_in(&mut self, parsed: Project) -> (p: Project)
        ensures
            p@ == parsed@.normalized(),
            p@.artifact_fqn.packaging == Some("pom"@),
            final(self)@ == cache_put(old(self)@, p@),
            cache_form(p@) == p@,
    {
        let project = parsed.normalized();
        let copy = project.clone();
        self.put(copy);
        project
    }
}

} // verus!
