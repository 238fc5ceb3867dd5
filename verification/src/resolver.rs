//! The resolver: descriptor fetch and package download over an ordered list
//! of repositories.

use std::sync::Arc;
use vstd::prelude::*;
use crate::artifact::{or_unknown, Artifact, ArtifactView};
use crate::cache::{
    cache_form, cache_key, cache_put, cached, extends, lemma_put_extends, lemma_put_then_cached,
    CacheView, ProjectCache,
};
use crate::error::{
    file_not_found_error, missing_parameter_error, ErrorKind, ResolverError, ResolverErrorView,
};
use crate::ordered_map::distinct_keys;
use crate::capabilities::{answers_bytes, answers_text, parses, PomParser, UrlFetcher};
use crate::packaging::{body_outcome, delivery, Packaging, PackagingView};
use crate::project::{Project, ProjectView};
use crate::repository::{artifact_url, missing_field, url_for, url_outcome, Repository};

verus! {

/// A resolver over an ordered list of repositories, with its descriptor
/// cache, transport and parser.
pub struct Resolver<F: UrlFetcher, P: PomParser> {
    pub repositories: Vec<Arc<Repository>>,
    pub project_cache: ProjectCache,
    pub url_fetcher: F,
    pub pom_parser: P,
}

/// The view of the outcome of fetching or assembling a project.
pub open spec fn project_outcome(
    r: Result<Project, ResolverError>,
) -> Result<ProjectView, ResolverErrorView> {
    match r {
        Ok(p) => Ok(p@),
        Err(e) => Err(e@),
    }
}

/// What one repository's answer means for the assembly of a project.
pub enum Verdict {
    /// The repository has the descriptor: assemble from it.
    Assemble(Project),
    /// The repository lacks the descriptor: ask the next one.
    TryNext,
    /// The repository failed otherwise: give up with this error.
    GiveUp(ResolverError),
}

/// What one repository's answer means, on views: a project is used, a
/// `FileNotFound` passes the question on, every other error ends it.
pub open spec fn verdict_of(
    outcome: Result<ProjectView, ResolverErrorView>,
) -> Option<Result<ProjectView, ResolverErrorView>> {
    match outcome {
        Ok(p) => Some(Ok(p)),
        Err(e) => if e.kind == ErrorKind::FileNotFound {
            None
        } else {
            Some(Err(e))
        },
    }
}

/// What asking repositories in order comes to, from the answers they
/// give: the first answer that is not `FileNotFound`; where there is none,
/// `None`.
pub open spec fn first_decisive(
    outcomes: Seq<Result<ProjectView, ResolverErrorView>>,
) -> Option<Result<ProjectView, ResolverErrorView>>
    decreases outcomes.len(),
{
    if outcomes.len() == 0 {
        None
    } else {
        match first_decisive(outcomes.drop_last()) {
            Some(r) => Some(r),
            None => verdict_of(outcomes.last()),
        }
    }
}

/// What fetching from the repositories gives for the answers `outcomes`:
/// the decisive answer, else `FileNotFound`, naming the coordinate.
pub open spec fn fallback(
    outcomes: Seq<Result<ProjectView, ResolverErrorView>>,
    target: ArtifactView,
) -> Result<ProjectView, ResolverErrorView> {
    match first_decisive(outcomes) {
        Some(r) => r,
        None => Err(file_not_found_error(target.display())),
    }
}

/// Repository fallback: an answer other than `FileNotFound` decides,
/// whatever the repositories after it would answer; a `FileNotFound`
/// leaves the decision to them.
pub proof fn lemma_repository_fallback(
    first: Result<ProjectView, ResolverErrorView>,
    rest: Seq<Result<ProjectView, ResolverErrorView>>,
)
    ensures
        first is Ok ==> first_decisive(seq![first] + rest) == Some(first),
        (first matches Err(e) && e.kind != ErrorKind::FileNotFound) ==> first_decisive(
            seq![first] + rest,
        ) == Some(first),
        (first matches Err(e) && e.kind == ErrorKind::FileNotFound) ==> first_decisive(
            seq![first] + rest,
        ) == first_decisive(rest),
    decreases rest.len(),
{
    let all = seq![first] + rest;
    if rest.len() == 0 {
        assert(all.drop_last() =~= Seq::empty());
        assert(first_decisive(all.drop_last()) is None);
        assert(all.last() == first);
    } else {
        lemma_repository_fallback(first, rest.drop_last());
        assert(all.drop_last() =~= seq![first] + rest.drop_last());
        assert(all.last() == rest.last());
    }
}

impl Verdict {
    /// The view of a verdict.
    pub open spec fn outcome(self) -> Option<Result<ProjectView, ResolverErrorView>> {
        match self {
            Verdict::Assemble(p) => Some(Ok(p@)),
            Verdict::TryNext => None,
            Verdict::GiveUp(e) => Some(Err(e@)),
        }
    }

    /// Judges one repository's answer.
    pub fn of(outcome: Result<Project, ResolverError>) -> (v: Verdict)
        ensures
            v == match outcome {
                Ok(p) => Verdict::Assemble(p),
                Err(e) => if e.kind == ErrorKind::FileNotFound {
                    Verdict::TryNext
                } else {
                    Verdict::GiveUp(e)
                },
            },
            v.outcome() == verdict_of(project_outcome(outcome)),
    {
        match outcome {
            Ok(p) => Verdict::Assemble(p),
            Err(e) => match e.kind {
                ErrorKind::FileNotFound => Verdict::TryNext,
                ErrorKind::ClientError => Verdict::GiveUp(e),
            },
        }
    }
}

/// Fetches the descriptor of `project_id` from one repository, through the
/// cache.
fn fetch_through<F: UrlFetcher, P: PomParser>(
    cache: &mut ProjectCache,
    url_fetcher: &F,
    pom_parser: &P,
    repository: &Repository,
    project_id: &Artifact,
) -> (r: Result<Project, ResolverError>)
    ensures
        fetch_relation(
            url_fetcher,
            pom_parser,
            old(cache)@,
            repository.base_url@,
            project_id@,
            r,
            final(cache)@,
        ),
{
    let ghost requested = project_id@;
    let project_id = project_id.with_packaging("pom");
    assert(project_id@ == cache_key(requested));
    assert(cache_key(project_id@) == project_id@);
    if let Some(project) = cache.get(&project_id) {
        return Ok(project);
    }
    let url = match repository.url(&project_id) {
        Ok(url) => url,
        Err(e) => {
            return Err(e);
        },
    };
    let answer = url_fetcher.fetch(url.as_str());
    assert(answers_text(url_fetcher, url@, answer));
    let text = match answer {
        Ok(text) => text,
        Err(e) => {
            assert(transport_relation(url_fetcher, pom_parser, url@, cache@, Err(e), cache@));
            return Err(e);
        },
    };
    let ghost given = text@;
    let parsed = pom_parser.parse(text);
    assert(parses(pom_parser, given, parsed));
    let raw = match parsed {
        Ok(raw) => raw,
        Err(e) => {
            assert(parse_relation(pom_parser, given, cache@, Err(e), cache@));
            assert(transport_relation(url_fetcher, pom_parser, url@, cache@, Err(e), cache@));
            return Err(e);
        },
    };
    let ghost before = cache@;
    let project = cache.take_in(raw);
    assert(parse_relation(pom_parser, given, before, Ok(project), cache@));
    assert(transport_relation(url_fetcher, pom_parser, url@, before, Ok(project), cache@));
    Ok(project)
}

/// What handing `text` to the parser leads to: the parser's error is handed
/// on and the cache stays as it is; a parsed descriptor is normalized and
/// put into the cache, and what was put comes back.
pub open spec fn parse_relation<P: PomParser>(
    parser: &P,
    text: Seq<char>,
    before: CacheView,
    r: Result<Project, ResolverError>,
    after: CacheView,
) -> bool {
    exists|parsed: Result<Project, ResolverError>| #[trigger]
        parses(parser, text, parsed) && match parsed {
            Err(e) => r == Err::<Project, ResolverError>(e) && after == before,
            Ok(raw) => r matches Ok(p) && p@ == raw@.normalized() && after == cache_put(
                before,
                p@,
            ),
        }
}

/// What asking the transport for the text at `url` leads to: the
/// transport's error is handed on and the cache stays as it is; a text is
/// handed to the parser.
pub open spec fn transport_relation<F: UrlFetcher, P: PomParser>(
    fetcher: &F,
    parser: &P,
    url: Seq<char>,
    before: CacheView,
    r: Result<Project, ResolverError>,
    after: CacheView,
) -> bool {
    exists|answer: Result<String, ResolverError>| #[trigger]
        answers_text(fetcher, url, answer) && match answer {
            Err(e) => r == Err::<Project, ResolverError>(e) && after == before,
            Ok(text) => parse_relation(parser, text@, before, r, after),
        }
}

/// How a fetch relates the cache before it, the repository, the requested
/// coordinate, the outcome and the cache after it.
///
/// A cached coordinate is answered from the cache, without transport or
/// parser, and the cache stays as it is. A coordinate for which no address
/// can be built gives the error that names the missing field. Otherwise the
/// transport is asked for the text at the address of the coordinate with
/// packaging `pom`, and the parser is given that text.
pub open spec fn fetch_relation<F: UrlFetcher, P: PomParser>(
    fetcher: &F,
    parser: &P,
    before: CacheView,
    base_url: Seq<char>,
    id: ArtifactView,
    r: Result<Project, ResolverError>,
    after: CacheView,
) -> bool {
    &&& match cached(before, id) {
        Some(hit) => r matches Ok(p) && p@ == hit && after == before,
        None => match url_for(base_url, cache_key(id)) {
            Err(e) => r matches Err(x) && x@ == e && after == before,
            Ok(url) => transport_relation(fetcher, parser, url, before, r, after),
        },
    }
    &&& r matches Ok(p) ==> p@.artifact_fqn.packaging == Some("pom"@)
}

/// Cache hit equivalence: where a fetch gave a project whose own
/// coordinate is the requested one, a second fetch of that coordinate, from
/// whichever repository, gives the same project and leaves the cache as the
/// first fetch left it.
pub proof fn lemma_fetch_twice<F: UrlFetcher, P: PomParser>(
    fetcher: &F,
    parser: &P,
    before: CacheView,
    id: ArtifactView,
    first_base: Seq<char>,
    first: Result<Project, ResolverError>,
    between: CacheView,
    second_base: Seq<char>,
    second: Result<Project, ResolverError>,
    after: CacheView,
)
    requires
        distinct_keys(before),
        fetch_relation(fetcher, parser, before, first_base, id, first, between),
        first matches Ok(p) && p@.artifact_fqn == cache_key(id),
        fetch_relation(fetcher, parser, between, second_base, id, second, after),
    ensures
        second matches Ok(q) && q@ == first->Ok_0@,
        after == between,
{
    let p = first->Ok_0@;
    if cached(before, id) is None {
        lemma_put_then_cached(before, id, p);
        assert(cache_form(p) == p);
    }
}

/// A fetch evicts nothing from the cache.
pub proof fn lemma_fetch_extends<F: UrlFetcher, P: PomParser>(
    fetcher: &F,
    parser: &P,
    before: CacheView,
    base_url: Seq<char>,
    id: ArtifactView,
    r: Result<Project, ResolverError>,
    after: CacheView,
)
    requires
        distinct_keys(before),
        fetch_relation(fetcher, parser, before, base_url, id, r, after),
    ensures
        extends(before, after),
        distinct_keys(after),
        r is Err ==> after == before,
{
    if after != before {
        lemma_put_extends(before, r->Ok_0@);
    }
}

/// The packaging that the attempt at `position` asks for: attempts come in
/// pairs, one pair for each repository, `aar` before `jar`.
pub open spec fn attempt_packaging(position: int) -> Seq<char> {
    if position % 2 == 0 {
        "aar"@
    } else {
        "jar"@
    }
}

/// The address that the attempt at `position` asks for: that of `id` with
/// the packaging of the attempt, in the repository of the attempt.
pub open spec fn attempt_url(
    repositories: Seq<Arc<Repository>>,
    id: ArtifactView,
    position: int,
) -> Seq<char> {
    artifact_url(
        repositories[position / 2].base_url@,
        id.with_packaging(attempt_packaging(position)),
    )
}

/// Each of `answers` is what the transport gave to the attempt at its
/// position.
pub open spec fn attempts_answered<F: UrlFetcher>(
    fetcher: &F,
    repositories: Seq<Arc<Repository>>,
    id: ArtifactView,
    answers: Seq<Result<bytes::Bytes, ResolverError>>,
) -> bool {
    forall|j: int|
        0 <= j < answers.len() ==> answers_bytes(
            fetcher,
            attempt_url(repositories, id, j),
            #[trigger] answers[j],
        )
}

/// The views of the answers to download attempts.
pub open spec fn bodies(
    answers: Seq<Result<bytes::Bytes, ResolverError>>,
) -> Seq<Result<Seq<u8>, ResolverErrorView>> {
    answers.map_values(|a: Result<bytes::Bytes, ResolverError>| body_outcome(a))
}

/// What a download comes to, from the answers of the transport to the
/// attempts in order: the first body that was delivered, tagged with the
/// packaging of its attempt; nothing where every attempt failed.
pub open spec fn first_delivery(
    answers: Seq<Result<Seq<u8>, ResolverErrorView>>,
) -> Option<PackagingView>
    decreases answers.len(),
{
    if answers.len() == 0 {
        None
    } else {
        match first_delivery(answers.drop_last()) {
            Some(p) => Some(p),
            None => delivery(attempt_packaging(answers.len() - 1), answers.last()),
        }
    }
}

/// The error of a download that found no archive: where there are
/// repositories and the coordinate lacks a field that an address needs, the
/// error that names the field, on the coordinate with packaging `aar`;
/// else `FileNotFound`, naming the artifact.
pub open spec fn download_failure(repositories: nat, id: ArtifactView) -> ResolverErrorView {
    match missing_field(id) {
        Some(field) if repositories > 0 => missing_parameter_error(
            id.with_packaging("aar"@),
            field,
        ),
        _ => file_not_found_error(or_unknown(id.artifact_id)),
    }
}

/// How a download relates the repositories, the coordinate and the outcome.
///
/// A coordinate that lacks a field which an address needs fails with the
/// error that names it, without any transport call where there are
/// repositories to ask. Otherwise the transport is asked for the archive,
/// repository by repository and `aar` before `jar`, until it delivers a
/// body: that body comes back, tagged with the packaging of the attempt.
/// Where every attempt at every repository failed, with whatever error, the
/// outcome is `FileNotFound`, naming the artifact.
pub open spec fn download_relation<F: UrlFetcher>(
    fetcher: &F,
    repositories: Seq<Arc<Repository>>,
    id: ArtifactView,
    r: Result<Packaging, ResolverError>,
) -> bool {
    if missing_field(id) is Some {
        r matches Err(e) && e@ == download_failure(repositories.len(), id)
    } else {
        exists|answers: Seq<Result<bytes::Bytes, ResolverError>>|
            {
                &&& #[trigger] attempts_answered(fetcher, repositories, id, answers)
                &&& answers.len() <= 2 * repositories.len()
                &&& match first_delivery(bodies(answers)) {
                    Some(p) => r matches Ok(q) && q@ == p,
                    None => answers.len() == 2 * repositories.len() && (r matches Err(e) && e@
                        == download_failure(repositories.len(), id)),
                }
            }
    }
}

/// The views of the answers of repositories.
pub open spec fn outcome_views(
    outcomes: Seq<Result<Project, ResolverError>>,
) -> Seq<Result<ProjectView, ResolverErrorView>> {
    outcomes.map_values(|o: Result<Project, ResolverError>| project_outcome(o))
}

/// Each of `outcomes` is what fetching `target` from the repository at its
/// position gave, on the cache `before`; the last fetch left the cache
/// `after`, the others left it as it was.
pub open spec fn asked_in_order<F: UrlFetcher, P: PomParser>(
    fetcher: &F,
    parser: &P,
    repositories: Seq<Arc<Repository>>,
    before: CacheView,
    target: ArtifactView,
    outcomes: Seq<Result<Project, ResolverError>>,
    after: CacheView,
) -> bool {
    &&& outcomes.len() == 0 ==> after == before
    &&& forall|i: int|
        0 <= i < outcomes.len() ==> fetch_relation(
            fetcher,
            parser,
            before,
            repositories[i].base_url@,
            target,
            #[trigger] outcomes[i],
            if i + 1 == outcomes.len() {
                after
            } else {
                before
            },
        )
}

/// How fetching from the first repository that has a descriptor relates
/// the repositories, the cache before, the coordinate, the outcome and the
/// cache after.
///
/// The repositories are asked in order, each through the cache, until one
/// gives an answer other than `FileNotFound`: that answer comes back, be it
/// a project or an error, and no repository after it is asked. Where every
/// repository answered `FileNotFound`, the outcome is `FileNotFound`,
/// naming the coordinate.
pub open spec fn fetch_first_relation<F: UrlFetcher, P: PomParser>(
    fetcher: &F,
    parser: &P,
    repositories: Seq<Arc<Repository>>,
    before: CacheView,
    target: ArtifactView,
    r: Result<Project, ResolverError>,
    after: CacheView,
) -> bool {
    exists|outcomes: Seq<Result<Project, ResolverError>>|
        {
            &&& #[trigger] asked_in_order(
                fetcher,
                parser,
                repositories,
                before,
                target,
                outcomes,
                after,
            )
            &&& outcomes.len() <= repositories.len()
            &&& match first_decisive(outcome_views(outcomes)) {
                Some(_) => r == outcomes.last(),
                None => outcomes.len() == repositories.len() && (r matches Err(e) && e@
                    == file_not_found_error(target.display())),
            }
            &&& project_outcome(r) == fallback(outcome_views(outcomes), target)
        }
}

impl<F: UrlFetcher, P: PomParser> Resolver<F, P> {
    /// A resolver over `repositories`, in this order, with an empty cache.
    pub fn new(repositories: Vec<Arc<Repository>>, url_fetcher: F, pom_parser: P) -> (r: Self)
        ensures
            r.repositories@ == repositories@,
            r.project_cache@ == Seq::<(ArtifactView, ProjectView)>::empty(),
            r.url_fetcher == url_fetcher,
            r.pom_parser == pom_parser,
    {
        Resolver { repositories, project_cache: ProjectCache::new(), url_fetcher, pom_parser }
    }

    /// The address of `id` in `repository`.
    pub fn create_url_with_repository(repository: &Repository, id: &Artifact) -> (r: Result<
        String,
        ResolverError,
    >)
        ensures
            url_outcome(r) == url_for(repository.base_url@, id@),
    {
        repository.url(id)
    }

    /// Downloads the archive of `id`: repositories in order, for each one
    /// packaging `aar` before `jar`. The first body that the transport
    /// delivers wins and is tagged with its packaging; transport errors of
    /// any kind pass the question on.
    pub fn try_download_package(&self, id: &Artifact) -> (r: Result<Packaging, ResolverError>)
        ensures
            download_relation(&self.url_fetcher, self.repositories@, id@, r),
            r matches Err(e) ==> e@ == download_failure(self.repositories@.len(), id@),
            r is Ok ==> self.repositories@.len() > 0 && missing_field(id@) is None,
    {
        let ghost mut answers: Seq<Result<bytes::Bytes, ResolverError>> = Seq::empty();
        let mut i: usize = 0;
        assert(bodies(answers) =~= Seq::empty());
        while i < self.repositories.len()
            invariant
                i <= self.repositories@.len(),
                i > 0 ==> missing_field(id@) is None,
                answers.len() == 2 * i,
                first_delivery(bodies(answers)) is None,
                attempts_answered(&self.url_fetcher, self.repositories@, id@, answers),
            decreases self.repositories@.len() - i,
        {
            let mut k: usize = 0;
            while k < 2
                invariant
                    i < self.repositories@.len(),
                    k <= 2,
                    i > 0 || k > 0 ==> missing_field(id@) is None,
                    answers.len() == 2 * i + k,
                    first_delivery(bodies(answers)) is None,
                    attempts_answered(&self.url_fetcher, self.repositories@, id@, answers),
                decreases 2 - k,
            {
                let packaging = if k == 0 {
                    "aar"
                } else {
                    "jar"
                };
                let packaged_id = id.with_packaging(packaging);
                let url = match self.repositories[i].url(&packaged_id) {
                    Ok(url) => url,
                    Err(e) => {
                        return Err(e);
                    },
                };
                let outcome = self.url_fetcher.fetch_bytes(url.as_str());
                proof {
                    let position = answers.len() as int;
                    assert(position / 2 == i && position % 2 == k);
                    assert(attempt_packaging(position) == packaging@);
                    assert(url@ == attempt_url(self.repositories@, id@, position));
                    assert(answers_bytes(&self.url_fetcher, url@, outcome));
                    let longer = answers.push(outcome);
                    assert(bodies(longer).drop_last() =~= bodies(answers));
                    assert(bodies(longer).last() == body_outcome(outcome));
                    assert(attempts_answered(&self.url_fetcher, self.repositories@, id@, longer))
                        by {
                        assert forall|j: int| 0 <= j < longer.len() implies answers_bytes(
                            &self.url_fetcher,
                            attempt_url(self.repositories@, id@, j),
                            #[trigger] longer[j],
                        ) by {
                            if j < answers.len() {
                                assert(longer[j] == answers[j]);
                            }
                        }
                    }
                    answers = longer;
                }
                if let Some(package) = Packaging::delivered(packaging, outcome) {
                    assert(first_delivery(bodies(answers)) == Some(package@));
                    return Ok(package);
                }
                k += 1;
            }
            i += 1;
        }
        match &id.artifact_id {
            Some(name) => Err(ResolverError::file_not_found(name.as_str())),
            None => Err(ResolverError::file_not_found("?")),
        }
    }

    /// Fetches the descriptor of `project_id` from `repository`, through
    /// the cache. Errors of transport and parser are handed on unchanged.
    pub fn fetch_project(&mut self, repository: &Repository, project_id: &Artifact) -> (r: Result<
        Project,
        ResolverError,
    >)
        ensures
            fetch_relation(
                &old(self).url_fetcher,
                &old(self).pom_parser,
                old(self).project_cache@,
                repository.base_url@,
                project_id@,
                r,
                final(self).project_cache@,
            ),
            final(self).repositories@ == old(self).repositories@,
            final(self).url_fetcher == old(self).url_fetcher,
            final(self).pom_parser == old(self).pom_parser,
    {
        fetch_through(
            &mut self.project_cache,
            &self.url_fetcher,
            &self.pom_parser,
            repository,
            project_id,
        )
    }

    /// Fetches the descriptor of `target` from the first repository that
    /// has it. A repository that answers `FileNotFound` passes the question
    /// on to the next; any other error ends the search. Where every
    /// repository lacks the descriptor the error is `FileNotFound`, naming
    /// the coordinate.
    pub fn fetch_first(&mut self, target: &Artifact) -> (r: Result<Project, ResolverError>)
        ensures
            fetch_first_relation(
                &old(self).url_fetcher,
                &old(self).pom_parser,
                old(self).repositories@,
                old(self).project_cache@,
                target@,
                r,
                final(self).project_cache@,
            ),
            final(self).repositories@ == old(self).repositories@,
            final(self).url_fetcher == old(self).url_fetcher,
            final(self).pom_parser == old(self).pom_parser,
            r matches Ok(p) ==> p@.artifact_fqn.packaging == Some("pom"@),
            extends(old(self).project_cache@, final(self).project_cache@),
            r is Err ==> final(self).project_cache@ == old(self).project_cache@,
            old(self).repositories@.len() == 0 ==> (r matches Err(e) && e@ == file_not_found_error(
                target@.display(),
            )),
            old(self).repositories@.len() > 0 ==> (cached(
                old(self).project_cache@,
                target@,
            ) matches Some(hit) ==> (r matches Ok(p) && p@ == hit && final(self).project_cache@
                == old(self).project_cache@)),
    {
        let ghost mut outcomes: Seq<Result<Project, ResolverError>> = Seq::empty();
        let mut i: usize = 0;
        proof {
            use_type_invariant(&self.project_cache);
            assert(outcome_views(outcomes) =~= Seq::empty());
        }
        while i < self.repositories.len()
            invariant
                i <= self.repositories@.len(),
                self.repositories@ == old(self).repositories@,
                self.url_fetcher == old(self).url_fetcher,
                self.pom_parser == old(self).pom_parser,
                outcomes.len() == i,
                first_decisive(outcome_views(outcomes)) is None,
                distinct_keys(self.project_cache@),
                self.project_cache@ == old(self).project_cache@,
                i > 0 ==> cached(old(self).project_cache@, target@) is None,
                asked_in_order(
                    &self.url_fetcher,
                    &self.pom_parser,
                    self.repositories@,
                    old(self).project_cache@,
                    target@,
                    outcomes,
                    old(self).project_cache@,
                ),
            decreases self.repositories@.len() - i,
        {
            let ghost before = self.project_cache@;
            let outcome = fetch_through(
                &mut self.project_cache,
                &self.url_fetcher,
                &self.pom_parser,
                &self.repositories[i],
                target,
            );
            proof {
                lemma_fetch_extends(
                    &self.url_fetcher,
                    &self.pom_parser,
                    before,
                    self.repositories@[i as int].base_url@,
                    target@,
                    outcome,
                    self.project_cache@,
                );
                let longer = outcomes.push(outcome);
                assert(outcome_views(longer).drop_last() =~= outcome_views(outcomes));
                assert(outcome_views(longer).last() == project_outcome(outcome));
                assert(asked_in_order(
                    &self.url_fetcher,
                    &self.pom_parser,
                    self.repositories@,
                    old(self).project_cache@,
                    target@,
                    longer,
                    self.project_cache@,
                )) by {
                    assert forall|j: int| 0 <= j < longer.len() implies fetch_relation(
                        &self.url_fetcher,
                        &self.pom_parser,
                        before,
                        self.repositories@[j].base_url@,
                        target@,
                        #[trigger] longer[j],
                        if j + 1 == longer.len() {
                            self.project_cache@
                        } else {
                            before
                        },
                    ) by {
                        if j < outcomes.len() {
                            assert(longer[j] == outcomes[j]);
                        }
                    }
                }
                outcomes = longer;
            }
            match Verdict::of(outcome) {
                Verdict::Assemble(project) => {
                    return Ok(project);
                },
                Verdict::GiveUp(e) => {
                    return Err(e);
                },
                Verdict::TryNext => {},
            }
            i += 1;
        }
        let name = target.to_string();
        Err(ResolverError::file_not_found(name.as_str()))
    }
}

} // verus!
