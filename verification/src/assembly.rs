//! Effective-project assembly: parent inheritance, property interpolation
//! and BOM imports, driven to the end through the cache and the
//! repositories.

use std::sync::Arc;
use vstd::prelude::*;
use crate::artifact::{holds, lemma_views, views, Artifact, ArtifactView};
use crate::cache::{cache_key, cached, extends, CacheView};
use crate::capabilities::{PomParser, UrlFetcher};
use crate::error::{cant_resolve_error, file_not_found_error, ResolverError};
use crate::ordered_map::{has_key, lemma_stored, value_of};
use crate::project::{inherited, Project, ProjectView};
use crate::repository::Repository;
use crate::resolver::{fetch_first_relation, Resolver};
use crate::text::text;

verus! {

/// The cause named when a project takes part in its own assembly.
pub open spec fn cycle_cause() -> Seq<char> {
    "the project is its own ancestor or imports itself"@
}

/// Marks an outcome together with the cache it left, so that the relations
/// below can speak of "some outcome and some cache".
pub open spec fn left(outcome: Result<Project, ResolverError>, cache: CacheView) -> bool {
    true
}

/// How an assembly relates the resolver and its cache before it, the
/// coordinates whose assembly is under way, the requested coordinate, the
/// outcome and the cache after it.
///
/// A coordinate whose assembly is already under way fails with a client
/// error that names it. Otherwise the descriptor of the coordinate, taken
/// with packaging `pom`, is fetched from the first repository that has it.
/// An error of that fetch is the outcome. A fetched descriptor is
/// completed, with its coordinate under way; no more than `usize::MAX`
/// coordinates are ever under way.
pub open spec fn assembled<F: UrlFetcher, P: PomParser>(
    fetcher: &F,
    parser: &P,
    repositories: Seq<Arc<Repository>>,
    before: CacheView,
    under_way: Seq<ArtifactView>,
    id: ArtifactView,
    r: Result<Project, ResolverError>,
    after: CacheView,
) -> bool
    decreases usize::MAX - under_way.len(), 0nat, 0nat,
{
    let target = cache_key(id);
    if under_way.contains(target) {
        r matches Err(e) && e@ == cant_resolve_error(target, cycle_cause()) && after == before
    } else {
        exists|fetched: Result<Project, ResolverError>, between: CacheView| #[trigger]
            left(fetched, between) && fetch_first_relation(
                fetcher,
                parser,
                repositories,
                before,
                target,
                fetched,
                between,
            ) && match fetched {
                Err(e) => r == Err::<Project, ResolverError>(e) && after == before,
                Ok(f) => under_way.len() < usize::MAX && completed(
                    fetcher,
                    parser,
                    repositories,
                    between,
                    under_way.push(target),
                    f@,
                    id.version,
                    r,
                    after,
                ),
            }
    }
}

/// How completing a fetched descriptor relates the cache before it, the
/// descriptor, the requested version, the outcome and the cache after it.
///
/// The property `project.version` is set to the requested version. Where
/// the descriptor names a parent, the parent is assembled: its error is the
/// outcome; its dependencies are inherited, the child's own coming first.
/// Then the managed versions are interpolated against the project's
/// properties, and the BOMs that the project imports at that point are
/// imported in order.
pub open spec fn completed<F: UrlFetcher, P: PomParser>(
    fetcher: &F,
    parser: &P,
    repositories: Seq<Arc<Repository>>,
    before: CacheView,
    under_way: Seq<ArtifactView>,
    fetched: ProjectView,
    version: Option<Seq<char>>,
    r: Result<Project, ResolverError>,
    after: CacheView,
) -> bool
    decreases usize::MAX - under_way.len(), 2nat, 0nat,
{
    match fetched.parent {
        None => imported(
            fetcher,
            parser,
            repositories,
            before,
            under_way,
            fetched.prepared(version, None),
            fetched.prepared(version, None).bom_references(),
            r,
            after,
        ),
        Some(q) => exists|parent: Result<Project, ResolverError>, between: CacheView| #[trigger]
            left(parent, between) && assembled(
                fetcher,
                parser,
                repositories,
                before,
                under_way,
                q,
                parent,
                between,
            ) && match parent {
                Err(e) => r == Err::<Project, ResolverError>(e) && after == between,
                Ok(pp) => imported(
                    fetcher,
                    parser,
                    repositories,
                    between,
                    under_way,
                    fetched.prepared(version, Some(pp@)),
                    fetched.prepared(version, Some(pp@)).bom_references(),
                    r,
                    after,
                ),
            },
    }
}

/// How importing the BOMs `boms` into `project` relates the cache before
/// it, the outcome and the cache after it.
///
/// Without a BOM left the project is the outcome. Otherwise the first BOM
/// is assembled: its error is the outcome; its managed dependencies are
/// merged into those of the project, and the other BOMs follow.
pub open spec fn imported<F: UrlFetcher, P: PomParser>(
    fetcher: &F,
    parser: &P,
    repositories: Seq<Arc<Repository>>,
    before: CacheView,
    under_way: Seq<ArtifactView>,
    project: ProjectView,
    boms: Seq<ArtifactView>,
    r: Result<Project, ResolverError>,
    after: CacheView,
) -> bool
    decreases usize::MAX - under_way.len(), 1nat, boms.len(),
{
    if boms.len() == 0 {
        r matches Ok(p) && p@ == project && after == before
    } else {
        exists|bom: Result<Project, ResolverError>, between: CacheView| #[trigger]
            left(bom, between) && assembled(
                fetcher,
                parser,
                repositories,
                before,
                under_way,
                boms.first(),
                bom,
                between,
            ) && match bom {
                Err(e) => r == Err::<Project, ResolverError>(e) && after == between,
                Ok(b) => imported(
                    fetcher,
                    parser,
                    repositories,
                    between,
                    under_way,
                    project.import(b@),
                    boms.drop_first(),
                    r,
                    after,
                ),
            }
    }
}

/// What an assembly guarantees to a caller that looks no further.
///
/// Nothing is evicted from the cache. Without repositories the assembly
/// fails with `FileNotFound`, naming the coordinate, and the cache stays as
/// it is. A project that comes out has packaging `pom`, and its property
/// `project.version` is the requested version where one was given. A
/// cached descriptor that names no parent and imports no BOM is made
/// effective without transport or parser, and the cache stays as it is.
pub open spec fn assembly_digest(
    repositories: nat,
    before: CacheView,
    id: ArtifactView,
    r: Result<Project, ResolverError>,
    after: CacheView,
) -> bool {
    &&& extends(before, after)
    &&& r matches Ok(p) ==> {
        &&& repositories > 0
        &&& p@.artifact_fqn.packaging == Some("pom"@)
        &&& id.version matches Some(v) ==> (has_key(p@.properties, "project.version"@)
            && value_of(p@.properties, "project.version"@) == v)
    }
    &&& repositories == 0 ==> (r matches Err(e) && e@ == file_not_found_error(
        cache_key(id).display(),
    ) && after == before)
    &&& repositories > 0 ==> (cached(before, id) matches Some(hit) ==> (hit.parent is None
        && hit.prepared(id.version, None).bom_references().len() == 0 ==> (r matches Ok(p) && p@
        == hit.prepared(id.version, None) && after == before)))
}

/// Importing BOMs changes nothing of a project but its managed
/// dependencies.
pub proof fn lemma_imported_keeps<F: UrlFetcher, P: PomParser>(
    fetcher: &F,
    parser: &P,
    repositories: Seq<Arc<Repository>>,
    before: CacheView,
    under_way: Seq<ArtifactView>,
    project: ProjectView,
    boms: Seq<ArtifactView>,
    p: Project,
    after: CacheView,
)
    requires
        imported(fetcher, parser, repositories, before, under_way, project, boms, Ok(p), after),
    ensures
        p@.artifact_fqn == project.artifact_fqn,
        p@.parent == project.parent,
        p@.dependencies == project.dependencies,
        p@.properties == project.properties,
    decreases boms.len(),
{
    reveal_with_fuel(imported, 2);
    if boms.len() > 0 {
        let (bom, between) = choose|bom: Result<Project, ResolverError>, between: CacheView|
            #[trigger] left(bom, between) && assembled(
                fetcher,
                parser,
                repositories,
                before,
                under_way,
                boms.first(),
                bom,
                between,
            ) && match bom {
                Err(e) => Ok::<Project, ResolverError>(p) == Err::<Project, ResolverError>(e)
                    && after == between,
                Ok(b) => imported(
                    fetcher,
                    parser,
                    repositories,
                    between,
                    under_way,
                    project.import(b@),
                    boms.drop_first(),
                    Ok(p),
                    after,
                ),
            };
        let b = bom->Ok_0;
        lemma_imported_keeps(
            fetcher,
            parser,
            repositories,
            between,
            under_way,
            project.import(b@),
            boms.drop_first(),
            p,
            after,
        );
    }
}

/// First writer wins in an assembly: where a completed project names a
/// parent, its dependencies are its own, as fetched, followed by those
/// dependencies of the assembled parent whose key it lacks.
pub proof fn lemma_assembly_first_writer_wins<F: UrlFetcher, P: PomParser>(
    fetcher: &F,
    parser: &P,
    repositories: Seq<Arc<Repository>>,
    before: CacheView,
    under_way: Seq<ArtifactView>,
    fetched: ProjectView,
    version: Option<Seq<char>>,
    p: Project,
    after: CacheView,
)
    requires
        fetched.parent is Some,
        completed(fetcher, parser, repositories, before, under_way, fetched, version, Ok(p), after),
    ensures
        exists|parent: Project, between: CacheView| #[trigger]
            left(Ok(parent), between) && assembled(
                fetcher,
                parser,
                repositories,
                before,
                under_way,
                fetched.parent->0,
                Ok(parent),
                between,
            ) && p@.dependencies == inherited(fetched.dependencies, parent@.dependencies),
{
    reveal_with_fuel(completed, 2);
    let q = fetched.parent->0;
    let (parent, between) = choose|parent: Result<Project, ResolverError>, between: CacheView|
        #[trigger] left(parent, between) && assembled(
            fetcher,
            parser,
            repositories,
            before,
            under_way,
            q,
            parent,
            between,
        ) && match parent {
            Err(e) => Ok::<Project, ResolverError>(p) == Err::<Project, ResolverError>(e) && after
                == between,
            Ok(pp) => imported(
                fetcher,
                parser,
                repositories,
                between,
                under_way,
                fetched.prepared(version, Some(pp@)),
                fetched.prepared(version, Some(pp@)).bom_references(),
                Ok(p),
                after,
            ),
        };
    let pp = parent->Ok_0;
    lemma_imported_keeps(
        fetcher,
        parser,
        repositories,
        between,
        under_way,
        fetched.prepared(version, Some(pp@)),
        fetched.prepared(version, Some(pp@)).bom_references(),
        p,
        after,
    );
    assert(left(Ok(pp), between) && assembled(
        fetcher,
        parser,
        repositories,
        before,
        under_way,
        q,
        Ok(pp),
        between,
    ));
}

impl<F: UrlFetcher, P: PomParser> Resolver<F, P> {
    /// Assembles the effective project of `id`. `stack` holds the
    /// coordinates whose assembly is under way; it comes back as it went in.
    fn assemble(&mut self, id: &Artifact, stack: &mut Vec<Artifact>) -> (r: Result<
        Project,
        ResolverError,
    >)
        ensures
            final(stack)@ == old(stack)@,
            final(self).repositories@ == old(self).repositories@,
            final(self).url_fetcher == old(self).url_fetcher,
            final(self).pom_parser == old(self).pom_parser,
            assembled(
                &old(self).url_fetcher,
                &old(self).pom_parser,
                old(self).repositories@,
                old(self).project_cache@,
                views(old(stack)@),
                id@,
                r,
                final(self).project_cache@,
            ),
            !views(old(stack)@).contains(cache_key(id@)) ==> assembly_digest(
                old(self).repositories@.len(),
                old(self).project_cache@,
                id@,
                r,
                final(self).project_cache@,
            ),
            extends(old(self).project_cache@, final(self).project_cache@),
        decreases usize::MAX - old(stack)@.len(), 0nat, 0nat,
    {
        proof {
            reveal_with_fuel(assembled, 2);
            reveal_with_fuel(completed, 2);
            reveal_with_fuel(imported, 2);
        }
        let target = id.with_packaging("pom");
        if holds(stack, &target) {
            return Err(
                ResolverError::cant_resolve(
                    &target,
                    "the project is its own ancestor or imports itself",
                ),
            );
        }
        let answer = self.fetch_first(&target);
        let ghost first = answer;
        let ghost between = self.project_cache@;
        assert(left(first, between));
        let fetched = match answer {
            Ok(fetched) => fetched,
            Err(e) => {
                return Err(e);
            },
        };
        let ghost raw = fetched@;
        proof {
            use_type_invariant(&fetched.properties);
            if let Some(v) = text(target.version) {
                lemma_stored(raw.properties, "project.version"@, v);
            }
        }
        stack.push(target.clone());
        // Reading the length tells that it is within bounds.
        let depth = stack.len();
        proof {
            lemma_views(old(stack)@);
            lemma_views(stack@);
            assert(views(stack@) =~= views(old(stack)@).push(target@));
        }
        let r = self.complete(fetched, &target.version, stack);
        stack.pop();
        assert(stack@ =~= old(stack)@);
        r
    }

    /// Completes a fetched descriptor: sets `project.version`, inherits
    /// from the assembled parent, interpolates the managed versions and
    /// imports the assembled BOMs.
    fn complete(
        &mut self,
        fetched: Project,
        version: &Option<String>,
        stack: &mut Vec<Artifact>,
    ) -> (r: Result<Project, ResolverError>)
        ensures
            final(stack)@ == old(stack)@,
            final(self).repositories@ == old(self).repositories@,
            final(self).url_fetcher == old(self).url_fetcher,
            final(self).pom_parser == old(self).pom_parser,
            completed(
                &old(self).url_fetcher,
                &old(self).pom_parser,
                old(self).repositories@,
                old(self).project_cache@,
                views(old(stack)@),
                fetched@,
                text(*version),
                r,
                final(self).project_cache@,
            ),
            extends(old(self).project_cache@, final(self).project_cache@),
            r matches Ok(p) ==> p@.artifact_fqn == fetched@.artifact_fqn && p@.properties
                == fetched@.with_project_version(text(*version)).properties,
        decreases usize::MAX - old(stack)@.len(), 2nat, 0nat,
    {
        proof {
            reveal_with_fuel(completed, 2);
        }
        let mut project = fetched;
        project.set_project_version(version);
        let parent_id = match &project.parent {
            Some(parent) => Some(parent.artifact_fqn.clone()),
            None => None,
        };
        match parent_id {
            Some(parent_id) => {
                let assembled_parent = self.assemble(&parent_id, stack);
                assert(left(assembled_parent, self.project_cache@));
                let parent = match assembled_parent {
                    Ok(parent) => parent,
                    Err(e) => {
                        return Err(e);
                    },
                };
                project.inherit_dependencies(&parent);
            },
            None => {},
        }
        project.interpolate_management();
        let boms = project.bom_references();
        assert(views(boms@).skip(0) =~= views(boms@));
        self.import_from(project, &boms, 0, stack)
    }

    /// Imports the BOMs `boms[from..]` into `project`, in order.
    fn import_from(
        &mut self,
        project: Project,
        boms: &Vec<Artifact>,
        from: usize,
        stack: &mut Vec<Artifact>,
    ) -> (r: Result<Project, ResolverError>)
        requires
            from <= boms@.len(),
        ensures
            final(stack)@ == old(stack)@,
            final(self).repositories@ == old(self).repositories@,
            final(self).url_fetcher == old(self).url_fetcher,
            final(self).pom_parser == old(self).pom_parser,
            imported(
                &old(self).url_fetcher,
                &old(self).pom_parser,
                old(self).repositories@,
                old(self).project_cache@,
                views(old(stack)@),
                project@,
                views(boms@).skip(from as int),
                r,
                final(self).project_cache@,
            ),
            extends(old(self).project_cache@, final(self).project_cache@),
            r matches Ok(p) ==> p@.artifact_fqn == project@.artifact_fqn && p@.properties
                == project@.properties,
        decreases usize::MAX - old(stack)@.len(), 1nat, boms@.len() - from,
    {
        proof {
            reveal_with_fuel(imported, 2);
            lemma_views(boms@);
        }
        if from == boms.len() {
            return Ok(project);
        }
        let assembled_bom = self.assemble(&boms[from], stack);
        assert(left(assembled_bom, self.project_cache@));
        let bom = match assembled_bom {
            Ok(bom) => bom,
            Err(e) => {
                return Err(e);
            },
        };
        let mut project = project;
        project.import_management(&bom);
        proof {
            let rest = views(boms@).skip(from as int);
            assert(rest.first() == boms@[from as int]@);
            assert(rest.drop_first() =~= views(boms@).skip(from + 1));
        }
        self.import_from(project, boms, from + 1, stack)
    }

    /// Assembles the effective project of `project_id`: the descriptor of
    /// the first repository that has it, with `project.version` set, the
    /// dependencies of its assembled parent inherited, its managed versions
    /// interpolated and its BOMs imported.
    pub fn build_effective_pom(&mut self, project_id: &Artifact) -> (r: Result<
        Project,
        ResolverError,
    >)
        ensures
            final(self).repositories@ == old(self).repositories@,
            final(self).url_fetcher == old(self).url_fetcher,
            final(self).pom_parser == old(self).pom_parser,
            assembled(
                &old(self).url_fetcher,
                &old(self).pom_parser,
                old(self).repositories@,
                old(self).project_cache@,
                Seq::empty(),
                project_id@,
                r,
                final(self).project_cache@,
            ),
            assembly_digest(
                old(self).repositories@.len(),
                old(self).project_cache@,
                project_id@,
                r,
                final(self).project_cache@,
            ),
    {
        let mut stack: Vec<Artifact> = Vec::new();
        assert(views(stack@) =~= Seq::empty());
        self.assemble(project_id, &mut stack)
    }
}

} // verus!
