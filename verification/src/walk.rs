//! The transitive walk over `compile`-scope dependencies.
//!
//! The walk is a state machine. The caller performs what an [`Action`] asks
//! of the file system and reports back with an [`Event`]; every decision is
//! taken by [`Resolver::step`].
//!
//! A coordinate passes through its states in order and never goes back: it
//! is enqueued while it waits in the queue; it is assembled when its turn
//! comes; its archive is fetched unless the class archive is on disk; the
//! class archive is extracted by the caller; then the coordinate is
//! complete. A failure on the way is final for the walk.

use std::collections::VecDeque;
use std::sync::Arc;
use vstd::prelude::*;
use crate::artifact::{holds, lemma_views, views, Artifact, ArtifactView};
use crate::assembly::{assembled, left};
use crate::cache::CacheView;
use crate::capabilities::{PomParser, UrlFetcher};
use crate::error::{invalid_data_error, missing_parameter_error, ResolverError, ResolverErrorView};
use crate::packaging::{class_archive, Packaging};
use crate::project::{Project, ProjectView};
use crate::repository::Repository;
use crate::resolver::{download_relation, Resolver};

verus! {

/// What the caller reports to the walk.
#[derive(Debug, Clone, Copy, PartialEq, Eq, Structural)]
pub enum Event {
    /// The walk may begin.
    Start,
    /// The extraction path was looked at; `exists` says whether a file is
    /// there.
    Probed { exists: bool },
    /// The class archive has been written to the extraction path.
    Written,
}

/// What the walk asks of the caller.
#[derive(Debug)]
pub enum Action {
    /// Make sure that `directory` exists below the target directory, then
    /// report whether `path` exists below it.
    Probe { directory: String, path: String },
    /// Write `contents` to `path` below the target directory.
    Write { path: String, contents: Vec<u8> },
    /// The walk is over; `resolved` holds every coordinate that was
    /// resolved, once, with packaging `jar`.
    Finish { resolved: Vec<Artifact> },
    /// The walk has failed, or the event was not expected.
    Fail { error: ResolverError },
}

/// What an [`Action`] stands for.
pub enum ActionView {
    Probe { directory: Seq<char>, path: Seq<char> },
    Write { path: Seq<char>, contents: Seq<u8> },
    Finish { resolved: Seq<ArtifactView> },
    Fail { error: ResolverErrorView },
}

impl View for Action {
    type V = ActionView;

    open spec fn view(&self) -> ActionView {
        match self {
            Action::Probe { directory, path } => ActionView::Probe {
                directory: directory@,
                path: path@,
            },
            Action::Write { path, contents } => ActionView::Write {
                path: path@,
                contents: contents@,
            },
            Action::Finish { resolved } => ActionView::Finish { resolved: views(resolved@) },
            Action::Fail { error } => ActionView::Fail { error: error@ },
        }
    }
}

/// Where the walk stands.
#[derive(Debug)]
pub enum Stage {
    /// Between two coordinates.
    Idle,
    /// The project has been assembled; the walk waits to hear whether its
    /// class archive is on disk at `path`.
    Probing { project: Project, path: String },
    /// The class archive has been handed out; the walk waits to hear that
    /// it was written.
    Storing { project: Project },
    /// Every coordinate has been resolved.
    Finished,
    /// A coordinate could not be resolved.
    Failed,
}

/// What a [`Stage`] stands for.
pub enum StageView {
    Idle,
    Probing { project: ProjectView, path: Seq<char> },
    Storing { project: ProjectView },
    Finished,
    Failed,
}

impl View for Stage {
    type V = StageView;

    open spec fn view(&self) -> StageView {
        match self {
            Stage::Idle => StageView::Idle,
            Stage::Probing { project, path } => StageView::Probing {
                project: project@,
                path: path@,
            },
            Stage::Storing { project } => StageView::Storing { project: project@ },
            Stage::Finished => StageView::Finished,
            Stage::Failed => StageView::Failed,
        }
    }
}

/// The state of a walk: the coordinates still to visit, in the order in
/// which they were met, the coordinates visited so far, and the stage.
#[derive(Debug)]
pub struct Walk {
    todo: VecDeque<Artifact>,
    done: Vec<Artifact>,
    stage: Stage,
}

/// What a [`Walk`] stands for.
pub struct WalkView {
    pub todo: Seq<ArtifactView>,
    pub done: Seq<ArtifactView>,
    pub stage: StageView,
}

/// The coordinates of `s`, each with packaging `pom`.
pub open spec fn as_poms(s: Seq<ArtifactView>) -> Seq<ArtifactView> {
    s.map_values(|a: ArtifactView| a.with_packaging("pom"@))
}

/// The coordinates of `s`, each with packaging `jar`.
pub open spec fn as_jars(s: Seq<ArtifactView>) -> Seq<ArtifactView> {
    s.map_values(|a: ArtifactView| a.with_packaging("jar"@))
}

/// `s` without repetitions: of equal coordinates the first is kept.
pub open spec fn without_repeats(s: Seq<ArtifactView>) -> Seq<ArtifactView>
    decreases s.len(),
{
    if s.len() == 0 {
        s
    } else {
        let rest = without_repeats(s.drop_last());
        if rest.contains(s.last()) {
            rest
        } else {
            rest.push(s.last())
        }
    }
}

/// The relative path of the class archive of a coordinate: the file name
/// of the coordinate with packaging `jar`, that is
/// `{name}/{version without brackets}.jar`.
pub open spec fn jar_path(id: ArtifactView) -> Seq<char> {
    id.with_packaging("jar"@).filename()
}

/// Removing repetitions keeps exactly the coordinates that were there, each
/// once.
pub proof fn lemma_without_repeats(s: Seq<ArtifactView>)
    ensures
        without_repeats(s).no_duplicates(),
        forall|a: ArtifactView| without_repeats(s).contains(a) <==> s.contains(a),
    decreases s.len(),
{
    if s.len() > 0 {
        let rest = without_repeats(s.drop_last());
        lemma_without_repeats(s.drop_last());
        let r = without_repeats(s);
        assert forall|a: ArtifactView| r.contains(a) <==> s.contains(a) by {
            if s.contains(a) {
                let i = choose|i: int| 0 <= i < s.len() && s[i] == a;
                if i < s.len() - 1 {
                    assert(s.drop_last()[i] == a);
                    assert(s.drop_last().contains(a));
                    assert(rest.contains(a));
                    let j = choose|j: int| 0 <= j < rest.len() && rest[j] == a;
                    assert(r[j] == a);
                } else if !rest.contains(a) {
                    assert(r[rest.len() as int] == a);
                }
            }
            if r.contains(a) {
                let j = choose|j: int| 0 <= j < r.len() && r[j] == a;
                if j < rest.len() {
                    assert(rest[j] == a);
                    assert(rest.contains(a));
                    assert(s.drop_last().contains(a));
                    let i = choose|i: int| 0 <= i < s.drop_last().len() && s.drop_last()[i] == a;
                    assert(s[i] == a);
                } else {
                    assert(s[s.len() - 1] == a);
                }
            }
        }
    }
}

/// The coordinate at `i` of the queue is the next to visit: it has not been
/// visited and every coordinate before it has.
pub open spec fn next_at(todo: Seq<ArtifactView>, done: Seq<ArtifactView>, i: int) -> bool {
    &&& 0 <= i < todo.len()
    &&& !done.contains(todo[i])
    &&& forall|j: int| 0 <= j < i ==> done.contains(#[trigger] todo[j])
}

/// The next coordinate to visit, if the queue holds one.
pub open spec fn next_of(todo: Seq<ArtifactView>, done: Seq<ArtifactView>) -> Option<ArtifactView> {
    if exists|i: int| next_at(todo, done, i) {
        Some(todo[choose|i: int| next_at(todo, done, i)])
    } else {
        None
    }
}

/// The queue behind the next coordinate to visit; empty where there is none.
pub open spec fn rest_of(todo: Seq<ArtifactView>, done: Seq<ArtifactView>) -> Seq<ArtifactView> {
    if exists|i: int| next_at(todo, done, i) {
        todo.skip((choose|i: int| next_at(todo, done, i)) + 1)
    } else {
        Seq::empty()
    }
}

/// There is at most one next coordinate.
pub proof fn lemma_next_unique(todo: Seq<ArtifactView>, done: Seq<ArtifactView>, i: int, j: int)
    requires
        next_at(todo, done, i),
        next_at(todo, done, j),
    ensures
        i == j,
{
    if i < j {
        assert(done.contains(todo[i]));
    } else if j < i {
        assert(done.contains(todo[j]));
    }
}

/// No coordinate is visited twice: the next coordinate to visit is none of
/// the visited ones.
pub proof fn lemma_next_is_fresh(todo: Seq<ArtifactView>, done: Seq<ArtifactView>)
    ensures
        next_of(todo, done) matches Some(a) ==> !done.contains(a) && todo.contains(a),
{
}

impl WalkView {
    /// The next coordinate to visit, if the queue holds one.
    pub open spec fn next(self) -> Option<ArtifactView> {
        next_of(self.todo, self.done)
    }

    /// The walk after it took the next coordinate off the queue, with all
    /// visited ones before it, and marked it as visited; without a next
    /// coordinate the queue is emptied.
    pub open spec fn advance(self) -> WalkView {
        WalkView {
            todo: rest_of(self.todo, self.done),
            done: match next_of(self.todo, self.done) {
                Some(a) => self.done.push(a),
                None => self.done,
            },
            stage: self.stage,
        }
    }

    /// The walk after the `compile`-scope dependencies of `p` joined the
    /// queue, in the order of their declaration.
    pub open spec fn enqueue(self, p: ProjectView) -> WalkView {
        WalkView { todo: self.todo + p.compile_dependencies(), done: self.done, stage: self.stage }
    }

    /// The visited coordinates as the walk returns them: with packaging
    /// `jar`, each once.
    pub open spec fn resolved(self) -> Seq<ArtifactView> {
        without_repeats(as_jars(self.done))
    }

    /// The same queue and visited coordinates at another stage.
    pub open spec fn at(self, stage: StageView) -> WalkView {
        WalkView { todo: self.todo, done: self.done, stage }
    }
}

/// What the walk needs of an assembled project before it can probe: the
/// directory and the path of its class archive, or the error that names the
/// field which the project's coordinate lacks, name before version.
pub open spec fn probe_of(id: ArtifactView) -> Result<(Seq<char>, Seq<char>), ResolverErrorView> {
    if id.artifact_id is None {
        Err(missing_parameter_error(id, "artifactId"@))
    } else if id.version is None {
        Err(missing_parameter_error(id, "version"@))
    } else {
        Ok((id.artifact_id->0, jar_path(id)))
    }
}

/// What visiting the next coordinate of `w` leads to.
///
/// The queue is advanced. Without a next coordinate the walk finishes with
/// the resolved coordinates, and nothing is asked of transport or parser.
/// Otherwise the coordinate is assembled. A failed assembly fails the walk
/// with its error. An assembled project whose coordinate lacks name or
/// version fails the walk too. For any other the walk asks to probe for
/// the class archive: the directory is the project's name, the path its
/// jar path, and the walk keeps project and path.
pub open spec fn begun<F: UrlFetcher, P: PomParser>(
    fetcher: &F,
    parser: &P,
    repositories: Seq<Arc<Repository>>,
    cache: CacheView,
    w: WalkView,
    after: WalkView,
    action: ActionView,
    cache_after: CacheView,
) -> bool {
    &&& after.todo == w.advance().todo
    &&& after.done == w.advance().done
    &&& match w.next() {
        None => {
            &&& after.stage == StageView::Finished
            &&& action == (ActionView::Finish { resolved: w.advance().resolved() })
            &&& cache_after == cache
        },
        Some(a) => exists|outcome: Result<Project, ResolverError>| #[trigger]
            left(outcome, cache_after) && assembled(
                fetcher,
                parser,
                repositories,
                cache,
                Seq::empty(),
                a,
                outcome,
                cache_after,
            ) && match outcome {
                Err(e) => after.stage == StageView::Failed && action == (ActionView::Fail {
                    error: e@,
                }),
                Ok(p) => match probe_of(p@.artifact_fqn) {
                    Err(e) => after.stage == StageView::Failed && action == (ActionView::Fail {
                        error: e,
                    }),
                    Ok((directory, path)) => after.stage == (StageView::Probing {
                        project: p@,
                        path,
                    }) && action == (ActionView::Probe { directory, path }),
                },
            },
    }
}

/// What downloading the class archive of `project` leads to.
///
/// A failed download fails the walk with its error. A downloaded archive is
/// unwrapped: the walk asks to write its class archive at `path` and keeps
/// the project; where there is no class archive in it, the walk fails with
/// the client error of the unwrapping.
pub open spec fn downloaded<F: UrlFetcher>(
    fetcher: &F,
    repositories: Seq<Arc<Repository>>,
    project: ProjectView,
    path: Seq<char>,
    stage_after: StageView,
    action: ActionView,
) -> bool {
    exists|package: Result<Packaging, ResolverError>| #[trigger]
        download_relation(fetcher, repositories, project.artifact_fqn, package) && match package {
            Err(e) => stage_after == StageView::Failed && action == (ActionView::Fail {
                error: e@,
            }),
            Ok(p) => match class_archive(p@) {
                Ok(contents) => stage_after == (StageView::Storing { project }) && action == (
                ActionView::Write { path, contents }),
                Err(e) => stage_after == StageView::Failed && action == (ActionView::Fail {
                    error: e,
                }),
            },
        }
}

/// How one step relates the resolver and the walk before it, the event,
/// the walk and the cache after it, and the action.
///
/// From `Idle` the event `Start` visits the next coordinate. While probing,
/// a file that exists completes the coordinate without any download: its
/// `compile`-scope dependencies join the queue and the next coordinate is
/// visited. A file that does not exist is downloaded and unwrapped. Once
/// the file is written the coordinate completes in the same way. Any other
/// event is refused and changes nothing.
pub open spec fn step_relation<F: UrlFetcher, P: PomParser>(
    fetcher: &F,
    parser: &P,
    repositories: Seq<Arc<Repository>>,
    cache: CacheView,
    before: WalkView,
    event: Event,
    after: WalkView,
    action: ActionView,
    cache_after: CacheView,
) -> bool {
    match (before.stage, event) {
        (StageView::Idle, Event::Start) => begun(
            fetcher,
            parser,
            repositories,
            cache,
            before,
            after,
            action,
            cache_after,
        ),
        (StageView::Probing { project, path }, Event::Probed { exists }) => if exists {
            begun(
                fetcher,
                parser,
                repositories,
                cache,
                before.enqueue(project),
                after,
                action,
                cache_after,
            )
        } else {
            &&& after.todo == before.todo
            &&& after.done == before.done
            &&& cache_after == cache
            &&& downloaded(fetcher, repositories, project, path, after.stage, action)
        },
        (StageView::Storing { project }, Event::Written) => begun(
            fetcher,
            parser,
            repositories,
            cache,
            before.enqueue(project),
            after,
            action,
            cache_after,
        ),
        _ => after == before && cache_after == cache && action == (ActionView::Fail {
            error: invalid_data_error("unexpected event"@),
        }),
    }
}

/// Idempotent extraction: where the probe reports that the class archive
/// exists, the step asks for no write and the walk does not wait for one.
pub proof fn lemma_existing_file_is_kept<F: UrlFetcher, P: PomParser>(
    fetcher: &F,
    parser: &P,
    repositories: Seq<Arc<Repository>>,
    cache: CacheView,
    before: WalkView,
    after: WalkView,
    action: ActionView,
    cache_after: CacheView,
)
    requires
        before.stage is Probing,
        step_relation(
            fetcher,
            parser,
            repositories,
            cache,
            before,
            Event::Probed { exists: true },
            after,
            action,
            cache_after,
        ),
    ensures
        !(action is Write),
        !(after.stage is Storing),
{
}

/// A step never takes a visited coordinate up again: what was visited
/// stays visited, in its place, and a coordinate that joins was not
/// visited before.
pub proof fn lemma_step_keeps_visited<F: UrlFetcher, P: PomParser>(
    fetcher: &F,
    parser: &P,
    repositories: Seq<Arc<Repository>>,
    cache: CacheView,
    before: WalkView,
    event: Event,
    after: WalkView,
    action: ActionView,
    cache_after: CacheView,
)
    requires
        step_relation(
            fetcher,
            parser,
            repositories,
            cache,
            before,
            event,
            after,
            action,
            cache_after,
        ),
    ensures
        before.done.len() <= after.done.len(),
        forall|i: int| 0 <= i < before.done.len() ==> after.done[i] == before.done[i],
        after.done.len() > before.done.len() ==> after.done.len() == before.done.len() + 1
            && !before.done.contains(after.done.last()),
{
}

impl View for Walk {
    type V = WalkView;

    closed spec fn view(&self) -> WalkView {
        WalkView { todo: views(self.todo@), done: views(self.done@), stage: self.stage@ }
    }
}

impl Walk {
    /// A walk that starts from `roots`, each taken with packaging `pom`.
    pub fn new(roots: &[Artifact]) -> (w: Walk)
        ensures
            w@.todo == as_poms(views(roots@)),
            w@.done == Seq::<ArtifactView>::empty(),
            w@.stage == StageView::Idle,
    {
        let mut todo: VecDeque<Artifact> = VecDeque::new();
        let mut i: usize = 0;
        while i < roots.len()
            invariant
                i <= roots@.len(),
                views(todo@) == as_poms(views(roots@.take(i as int))),
            decreases roots@.len() - i,
        {
            let root = roots[i].with_packaging("pom");
            let ghost queue = todo@;
            todo.push_back(root);
            i += 1;
            proof {
                lemma_views(queue);
                lemma_views(todo@);
                lemma_views(roots@.take(i - 1));
                lemma_views(roots@.take(i as int));
                let seen = as_poms(views(roots@.take(i as int)));
                assert forall|j: int| 0 <= j < seen.len() implies views(todo@)[j] == seen[j] by {
                    if j < i - 1 {
                        assert(views(queue)[j] == as_poms(views(roots@.take(i - 1)))[j]);
                    }
                }
                assert(views(todo@) =~= seen);
            }
        }
        assert(roots@.take(roots@.len() as int) =~= roots@);
        let done: Vec<Artifact> = Vec::new();
        assert(views(done@) =~= Seq::<ArtifactView>::empty());
        Walk { todo, done, stage: Stage::Idle }
    }

    /// The number of coordinates that wait in the queue.
    pub fn pending(&self) -> (n: usize)
        ensures
            n == self@.todo.len(),
    {
        self.todo.len()
    }

    /// The number of coordinates visited so far.
    pub fn visited(&self) -> (n: usize)
        ensures
            n == self@.done.len(),
    {
        self.done.len()
    }

    /// Takes the next coordinate to visit off the queue and marks it as
    /// visited. Coordinates that were visited before are dropped on the way.
    pub fn next(&mut self) -> (r: Option<Artifact>)
        ensures
            final(self)@ == old(self)@.advance(),
            match r {
                Some(a) => old(self)@.next() == Some(a@),
                None => old(self)@.next() is None,
            },
    {
        let ghost before = self@;
        let ghost mut dropped: int = 0;
        loop
            invariant
                0 <= dropped <= before.todo.len(),
                views(self.todo@) == before.todo.skip(dropped),
                views(self.done@) == before.done,
                self.stage == old(self).stage,
                before == old(self)@,
                forall|j: int| 0 <= j < dropped ==> before.done.contains(#[trigger] before.todo[j]),
            decreases self.todo@.len(),
        {
            proof {
                lemma_views(self.todo@);
            }
            let ghost queue = self.todo@;
            let a = match self.todo.pop_front() {
                Some(a) => a,
                None => {
                    assert(dropped == before.todo.len());
                    assert(!(exists|i: int| next_at(before.todo, before.done, i)));
                    assert(views(self.todo@) =~= Seq::<ArtifactView>::empty());
                    return None;
                },
            };
            proof {
                lemma_views(self.todo@);
                assert(a@ == views(queue)[0]);
                assert(a@ == before.todo[dropped]);
                assert(views(self.todo@) =~= before.todo.skip(dropped + 1)) by {
                    assert forall|j: int| 0 <= j < self.todo@.len() implies views(self.todo@)[j]
                        == before.todo.skip(dropped + 1)[j] by {
                        assert(views(queue)[j + 1] == before.todo.skip(dropped)[j + 1]);
                    }
                }
            }
            if !holds(&self.done, &a) {
                let ghost visited = self.done@;
                self.done.push(a.clone());
                proof {
                    lemma_views(visited);
                    lemma_views(self.done@);
                    assert(next_at(before.todo, before.done, dropped));
                    lemma_next_unique(
                        before.todo,
                        before.done,
                        dropped,
                        choose|i: int| next_at(before.todo, before.done, i),
                    );
                    assert(views(self.todo@) =~= before.todo.skip(dropped + 1));
                    assert(views(self.done@) =~= before.done.push(a@));
                }
                return Some(a);
            }
            proof {
                dropped = dropped + 1;
            }
        }
    }

    /// Appends the `compile`-scope dependencies of `project` to the queue.
    pub fn enqueue(&mut self, project: &Project)
        ensures
            final(self)@ == old(self)@.enqueue(project@),
    {
        let deps = project.compile_dependencies();
        let ghost before = views(self.todo@);
        let mut i: usize = 0;
        assert(views(self.todo@) =~= before + views(deps@).take(0));
        while i < deps.len()
            invariant
                i <= deps@.len(),
                views(self.todo@) == before + views(deps@).take(i as int),
                self.done == old(self).done,
                self.stage == old(self).stage,
            decreases deps@.len() - i,
        {
            let ghost queue = self.todo@;
            self.todo.push_back(deps[i].clone());
            i += 1;
            proof {
                lemma_views(queue);
                lemma_views(self.todo@);
                lemma_views(deps@);
                let longer = before + views(deps@).take(i as int);
                assert forall|j: int| 0 <= j < longer.len() implies views(self.todo@)[j]
                    == longer[j] by {
                    if j < queue.len() {
                        assert(views(queue)[j] == (before + views(deps@).take(i - 1))[j]);
                    }
                }
                assert(views(self.todo@) =~= longer);
            }
        }
        assert(views(deps@).take(deps@.len() as int) =~= views(deps@));
    }

    /// The visited coordinates with packaging `jar`, each once, in the
    /// order of their first visit.
    pub fn resolved(&self) -> (r: Vec<Artifact>)
        ensures
            views(r@) == self@.resolved(),
    {
        let mut out: Vec<Artifact> = Vec::new();
        let mut i: usize = 0;
        assert(views(out@) =~= without_repeats(as_jars(views(self.done@).take(0))));
        while i < self.done.len()
            invariant
                i <= self.done@.len(),
                views(out@) == without_repeats(as_jars(views(self.done@).take(i as int))),
            decreases self.done@.len() - i,
        {
            let jar = self.done[i].with_packaging("jar");
            proof {
                lemma_views(self.done@);
                lemma_views(out@);
                let s = as_jars(views(self.done@).take(i + 1));
                assert(s.drop_last() =~= as_jars(views(self.done@).take(i as int)));
                assert(s.last() == jar@);
            }
            if !holds(&out, &jar) {
                let ghost shorter = views(out@);
                out.push(jar);
                proof {
                    lemma_views(out@);
                }
                assert(views(out@) =~= shorter.push(jar@));
            }
            i += 1;
        }
        assert(views(self.done@).take(self.done@.len() as int) =~= views(self.done@));
        out
    }
}

impl<F: UrlFetcher, P: PomParser> Resolver<F, P> {
    /// Takes one step of the walk: judges `event` at the stage where
    /// `walk` stands and says what the caller is to do next.
    pub fn step(&mut self, walk: &mut Walk, event: Event) -> (action: Action)
        ensures
            step_relation(
                &old(self).url_fetcher,
                &old(self).pom_parser,
                old(self).repositories@,
                old(self).project_cache@,
                old(walk)@,
                event,
                final(walk)@,
                action@,
                final(self).project_cache@,
            ),
            final(self).repositories@ == old(self).repositories@,
    {
        let mut stage = Stage::Idle;
        core::mem::swap(&mut walk.stage, &mut stage);
        match stage {
            Stage::Idle => match event {
                Event::Start => self.begin(walk),
                _ => Self::refuse(walk, Stage::Idle),
            },
            Stage::Probing { project, path } => match event {
                Event::Probed { exists } => {
                    if exists {
                        walk.enqueue(&project);
                        self.begin(walk)
                    } else {
                        self.download(walk, project, path)
                    }
                },
                _ => Self::refuse(walk, Stage::Probing { project, path }),
            },
            Stage::Storing { project } => match event {
                Event::Written => {
                    walk.enqueue(&project);
                    self.begin(walk)
                },
                _ => Self::refuse(walk, Stage::Storing { project }),
            },
            Stage::Finished => Self::refuse(walk, Stage::Finished),
            Stage::Failed => Self::refuse(walk, Stage::Failed),
        }
    }

    /// Refuses an event: the walk stays at `stage`.
    fn refuse(walk: &mut Walk, stage: Stage) -> (action: Action)
        ensures
            final(walk)@ == old(walk)@.at(stage@),
            action@ == (ActionView::Fail { error: invalid_data_error("unexpected event"@) }),
    {
        walk.stage = stage;
        Action::Fail { error: ResolverError::invalid_data("unexpected event") }
    }

    /// Fails the walk with `error`.
    fn fail(walk: &mut Walk, error: ResolverError) -> (action: Action)
        ensures
            final(walk)@ == old(walk)@.at(StageView::Failed),
            action@ == (ActionView::Fail { error: error@ }),
    {
        walk.stage = Stage::Failed;
        Action::Fail { error }
    }

    /// Visits the next coordinate of the queue.
    fn begin(&mut self, walk: &mut Walk) -> (action: Action)
        ensures
            begun(
                &old(self).url_fetcher,
                &old(self).pom_parser,
                old(self).repositories@,
                old(self).project_cache@,
                old(walk)@,
                final(walk)@,
                action@,
                final(self).project_cache@,
            ),
            final(self).repositories@ == old(self).repositories@,
            final(self).url_fetcher == old(self).url_fetcher,
    {
        let next = match walk.next() {
            Some(next) => next,
            None => {
                let resolved = walk.resolved();
                walk.stage = Stage::Finished;
                return Action::Finish { resolved };
            },
        };
        let assembled = self.build_effective_pom(&next);
        assert(left(assembled, self.project_cache@));
        let project = match assembled {
            Ok(project) => project,
            Err(error) => {
                return Self::fail(walk, error);
            },
        };
        let directory = match &project.artifact_fqn.artifact_id {
            Some(name) => name.clone(),
            None => {
                let error = ResolverError::missing_parameter(&project.artifact_fqn, "artifactId");
                return Self::fail(walk, error);
            },
        };
        if project.artifact_fqn.version.is_none() {
            let error = ResolverError::missing_parameter(&project.artifact_fqn, "version");
            return Self::fail(walk, error);
        }
        let path = project.artifact_fqn.with_packaging("jar").filename();
        walk.stage = Stage::Probing { project, path: path.clone() };
        Action::Probe { directory, path }
    }

    /// Downloads and unwraps the class archive of `project`.
    fn download(&mut self, walk: &mut Walk, project: Project, path: String) -> (action: Action)
        ensures
            final(walk)@.todo == old(walk)@.todo,
            final(walk)@.done == old(walk)@.done,
            downloaded(
                &old(self).url_fetcher,
                old(self).repositories@,
                project@,
                path@,
                final(walk)@.stage,
                action@,
            ),
            final(self).repositories@ == old(self).repositories@,
            final(self).project_cache@ == old(self).project_cache@,
    {
        let package = match self.try_download_package(&project.artifact_fqn) {
            Ok(package) => package,
            Err(error) => {
                return Self::fail(walk, error);
            },
        };
        let contents = match package.jar_contents() {
            Ok(contents) => contents,
            Err(error) => {
                return Self::fail(walk, error);
            },
        };
        walk.stage = Stage::Storing { project };
        Action::Write { path, contents }
    }
}

} // verus!
