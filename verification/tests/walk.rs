use bytes::Bytes;
use maven_toolbox::{
    Action, Artifact, Dependencies, Dependency, ErrorKind, Event, OrderedMap, PomParser, Project,
    Repository, Resolver, ResolverError, UrlFetcher, Walk,
};
use std::cell::RefCell;
use std::collections::HashMap;
use std::io::Write;
use std::sync::Arc;

const R: &str = "https://r.example/m2";

struct Web {
    texts: HashMap<String, String>,
    bodies: HashMap<String, Vec<u8>>,
    log: RefCell<Vec<String>>,
}

impl UrlFetcher for Web {
    fn fetch(&self, url: &str) -> Result<String, ResolverError> {
        self.log.borrow_mut().push(url.to_string());
        self.texts.get(url).cloned().ok_or_else(|| ResolverError::file_not_found(url))
    }

    fn fetch_bytes(&self, url: &str) -> Result<Bytes, ResolverError> {
        self.log.borrow_mut().push(url.to_string());
        self.bodies.get(url).cloned().map(Bytes::from).ok_or_else(|| ResolverError::file_not_found(url))
    }
}

struct Catalog {
    projects: HashMap<String, Project>,
}

impl PomParser for Catalog {
    fn parse(&self, input: String) -> Result<Project, ResolverError> {
        self.projects.get(&input).cloned().ok_or_else(|| ResolverError::invalid_data("not a descriptor"))
    }
}

fn some(s: &str) -> Option<String> {
    Some(s.to_string())
}

fn coordinate(name: &str, version: &str) -> Artifact {
    Artifact {
        group_id: some("com.example"),
        artifact_id: some(name),
        version: some(version),
        packaging: None,
        classifier: None,
    }
}

fn dep(name: &str, version: &str, scope: Option<&str>) -> Dependency {
    Dependency { artifact_fqn: coordinate(name, version), scope: scope.map(|s| s.to_string()) }
}

fn project(name: &str, version: &str, own: Vec<Dependency>) -> Project {
    let mut dependencies: Dependencies = OrderedMap::new();
    for d in own {
        dependencies.insert(d.get_key(), d);
    }
    Project {
        parent: None,
        artifact_fqn: coordinate(name, version).with_packaging("pom"),
        dependency_management: None,
        dependencies,
        properties: OrderedMap::new(),
    }
}

fn url(name: &str, version: &str, packaging: &str) -> String {
    format!("{}/com/example/{}/{}/{}-{}.{}", R, name, version, name, version, packaging)
}

fn aar(classes: &[u8]) -> Vec<u8> {
    let mut writer = zip::ZipWriter::new(std::io::Cursor::new(Vec::new()));
    writer.start_file("classes.jar", zip::write::FileOptions::default()).unwrap();
    writer.write_all(classes).unwrap();
    writer.finish().unwrap().into_inner()
}

struct World {
    web: Web,
    catalog: Catalog,
}

impl World {
    fn new() -> Self {
        World {
            web: Web { texts: HashMap::new(), bodies: HashMap::new(), log: RefCell::new(Vec::new()) },
            catalog: Catalog { projects: HashMap::new() },
        }
    }

    fn serve(&mut self, p: Project, packaging: &str, body: Vec<u8>) {
        let name = p.artifact_fqn.artifact_id.clone().unwrap();
        let version = p.artifact_fqn.version.clone().unwrap();
        let tag = format!("{}:{}", name, version);
        self.web.texts.insert(url(&name, &version, "pom"), tag.clone());
        self.web.bodies.insert(url(&name, &version, packaging), body);
        self.catalog.projects.insert(tag, p);
    }

    fn resolver(self) -> Resolver<Web, Catalog> {
        Resolver::new(vec![Arc::new(Repository { base_url: R.to_string() })], self.web, self.catalog)
    }
}

type Disk = HashMap<String, Vec<u8>>;

fn run(resolver: &mut Resolver<Web, Catalog>, roots: &[Artifact], disk: &mut Disk) -> Result<Vec<Artifact>, ResolverError> {
    let mut walk = Walk::new(roots);
    let mut event = Event::Start;
    loop {
        match resolver.step(&mut walk, event) {
            Action::Probe { directory, path } => {
                assert!(path.starts_with(&format!("{}/", directory)));
                event = Event::Probed { exists: disk.contains_key(&path) };
            },
            Action::Write { path, contents } => {
                disk.insert(path, contents);
                event = Event::Written;
            },
            Action::Finish { resolved } => return Ok(resolved),
            Action::Fail { error } => return Err(error),
        }
    }
}

fn jar(name: &str, version: &str) -> Artifact {
    coordinate(name, version).with_packaging("jar")
}

#[test]
fn walk_starts_with_the_roots_as_poms() {
    let mut walk = Walk::new(&[jar("a", "1.0"), coordinate("b", "2.0")]);
    assert_eq!(walk.pending(), 2);
    assert_eq!(walk.visited(), 0);
    assert_eq!(walk.next(), Some(coordinate("a", "1.0").with_packaging("pom")));
    assert_eq!(walk.next(), Some(coordinate("b", "2.0").with_packaging("pom")));
    assert_eq!(walk.next(), None);
    assert_eq!(walk.visited(), 2);
}

#[test]
fn walk_skips_what_was_visited() {
    let mut walk = Walk::new(&[coordinate("a", "1"), coordinate("a", "1"), coordinate("b", "1")]);
    assert_eq!(walk.next().unwrap().artifact_id, some("a"));
    assert_eq!(walk.pending(), 2);
    assert_eq!(walk.next().unwrap().artifact_id, some("b"));
    assert_eq!(walk.pending(), 0);
    assert_eq!(walk.next(), None);
    assert_eq!(walk.visited(), 2);
}

#[test]
fn walk_tells_versions_apart() {
    let mut walk = Walk::new(&[coordinate("a", "1"), coordinate("a", "2")]);
    assert!(walk.next().is_some());
    assert!(walk.next().is_some());
    assert_eq!(walk.visited(), 2);
}

#[test]
fn walk_enqueues_compile_dependencies_in_order() {
    let mut walk = Walk::new(&[]);
    walk.enqueue(&project("a", "1", vec![
        dep("c", "1", Some("compile")),
        dep("t", "1", Some("test")),
        dep("n", "1", None),
        dep("b", "1", Some("compile")),
    ]));
    assert_eq!(walk.pending(), 2);
    assert_eq!(walk.next().unwrap().artifact_id, some("c"));
    assert_eq!(walk.next().unwrap().artifact_id, some("b"));
    assert_eq!(walk.next(), None);
}

#[test]
fn walk_returns_each_coordinate_once_as_jar() {
    let mut walk = Walk::new(&[coordinate("a", "1")]);
    walk.next();
    walk.enqueue(&project("x", "1", vec![Dependency {
        artifact_fqn: jar("a", "1"),
        scope: some("compile"),
    }, dep("b", "1", Some("compile"))]));
    assert!(walk.next().is_some());
    assert!(walk.next().is_some());
    assert_eq!(walk.visited(), 3);
    assert_eq!(walk.resolved(), vec![jar("a", "1"), jar("b", "1")]);
}

#[test]
fn download_all_resolves_a_root_and_its_dependency() {
    let mut w = World::new();
    w.serve(project("a", "1.0", vec![dep("b", "2.0", Some("compile"))]), "jar", vec![1, 1]);
    w.serve(project("b", "2.0", vec![]), "jar", vec![2, 2]);
    let mut r = w.resolver();
    let mut disk = Disk::new();
    let done = run(&mut r, &[coordinate("a", "1.0")], &mut disk).unwrap();
    assert_eq!(done, vec![jar("a", "1.0"), jar("b", "2.0")]);
    assert_eq!(disk.len(), 2);
    assert_eq!(disk.get("a/1.0.jar"), Some(&vec![1u8, 1]));
    assert_eq!(disk.get("b/2.0.jar"), Some(&vec![2u8, 2]));
}

#[test]
fn download_all_unwraps_an_aar() {
    let mut w = World::new();
    w.serve(project("b", "2.0", vec![]), "aar", aar(b"classes of b"));
    let mut r = w.resolver();
    let mut disk = Disk::new();
    let done = run(&mut r, &[coordinate("b", "2.0")], &mut disk).unwrap();
    assert_eq!(done, vec![jar("b", "2.0")]);
    assert_eq!(disk.get("b/2.0.jar"), Some(&b"classes of b".to_vec()));
}

#[test]
fn download_all_walks_breadth_first_in_declaration_order() {
    let mut w = World::new();
    w.serve(project("a", "1", vec![dep("b", "1", Some("compile")), dep("c", "1", Some("compile"))]), "jar", vec![]);
    w.serve(project("b", "1", vec![dep("d", "1", Some("compile"))]), "jar", vec![]);
    w.serve(project("c", "1", vec![dep("b", "1", Some("compile"))]), "jar", vec![]);
    w.serve(project("d", "1", vec![]), "jar", vec![]);
    let mut r = w.resolver();
    let mut disk = Disk::new();
    let done = run(&mut r, &[coordinate("a", "1")], &mut disk).unwrap();
    assert_eq!(done, vec![jar("a", "1"), jar("b", "1"), jar("c", "1"), jar("d", "1")]);
}

#[test]
fn download_all_ignores_other_scopes() {
    let mut w = World::new();
    w.serve(project("a", "1", vec![dep("t", "1", Some("test")), dep("n", "1", None), dep("p", "1", Some("provided"))]), "jar", vec![]);
    let mut r = w.resolver();
    let mut disk = Disk::new();
    let done = run(&mut r, &[coordinate("a", "1")], &mut disk).unwrap();
    assert_eq!(done, vec![jar("a", "1")]);
}

#[test]
fn download_all_survives_a_dependency_cycle() {
    let mut w = World::new();
    w.serve(project("a", "1", vec![dep("b", "1", Some("compile"))]), "jar", vec![]);
    w.serve(project("b", "1", vec![dep("a", "1", Some("compile"))]), "jar", vec![]);
    let mut r = w.resolver();
    let mut disk = Disk::new();
    let done = run(&mut r, &[coordinate("a", "1")], &mut disk).unwrap();
    assert_eq!(done, vec![jar("a", "1"), jar("b", "1")]);
}

#[test]
fn download_all_strips_brackets_in_the_path() {
    let mut w = World::new();
    let mut p = project("a", "1.0", vec![]);
    p.artifact_fqn.version = some("[1.0]");
    w.serve(project("a", "1.0", vec![]), "jar", vec![5]);
    w.catalog.projects.insert("a:1.0".to_string(), p);
    let mut r = w.resolver();
    let mut disk = Disk::new();
    run(&mut r, &[coordinate("a", "[1.0]")], &mut disk).unwrap();
    assert_eq!(disk.get("a/1.0.jar"), Some(&vec![5u8]));
}

#[test]
fn second_run_downloads_no_archive_that_is_on_disk() {
    let mut disk = Disk::new();
    let roots = [coordinate("a", "1.0")];
    let mut first = World::new();
    first.serve(project("a", "1.0", vec![dep("b", "2.0", Some("compile"))]), "jar", vec![1]);
    first.serve(project("b", "2.0", vec![]), "jar", vec![2]);
    let mut r = first.resolver();
    let done_first = run(&mut r, &roots, &mut disk).unwrap();
    let mut second = World::new();
    second.serve(project("a", "1.0", vec![dep("b", "2.0", Some("compile"))]), "jar", vec![9]);
    second.serve(project("b", "2.0", vec![]), "jar", vec![9]);
    let mut r = second.resolver();
    let done_second = run(&mut r, &roots, &mut disk).unwrap();
    assert_eq!(done_first, done_second);
    let log = r.url_fetcher.log.borrow();
    assert!(log.iter().all(|u| u.ends_with(".pom")));
    assert_eq!(log.len(), 2);
    assert_eq!(disk.get("a/1.0.jar"), Some(&vec![1u8]));
    assert_eq!(disk.get("b/2.0.jar"), Some(&vec![2u8]));
}

#[test]
fn every_resolved_coordinate_has_its_file() {
    let mut w = World::new();
    w.serve(project("a", "1.0", vec![dep("b", "[2.0]", Some("compile")), dep("c", "3", Some("compile"))]), "jar", vec![1]);
    w.serve(project("b", "2.0", vec![dep("c", "3", Some("compile"))]), "aar", aar(b"b"));
    let mut b = project("b", "2.0", vec![dep("c", "3", Some("compile"))]);
    b.artifact_fqn.version = some("[2.0]");
    w.catalog.projects.insert("b:2.0".to_string(), b);
    w.serve(project("c", "3", vec![]), "jar", vec![3]);
    let mut r = w.resolver();
    let mut disk = Disk::new();
    let done = run(&mut r, &[coordinate("a", "1.0")], &mut disk).unwrap();
    assert_eq!(done.len(), 3);
    for a in &done {
        assert_eq!(a.packaging, some("jar"));
        assert!(disk.contains_key(&a.filename()));
    }
}

#[test]
fn download_all_fails_when_a_descriptor_is_missing() {
    let mut w = World::new();
    w.serve(project("a", "1", vec![dep("gone", "1", Some("compile"))]), "jar", vec![1]);
    let mut r = w.resolver();
    let mut disk = Disk::new();
    let e = run(&mut r, &[coordinate("a", "1")], &mut disk).unwrap_err();
    assert_eq!(e.kind, ErrorKind::FileNotFound);
    assert_eq!(e.msg, "Can't find com.example:gone:1:pom:?");
    assert!(disk.contains_key("a/1.jar"));
}

#[test]
fn download_all_fails_when_no_archive_is_found() {
    let mut w = World::new();
    w.serve(project("a", "1", vec![]), "war", vec![1]);
    let mut r = w.resolver();
    let mut disk = Disk::new();
    let e = run(&mut r, &[coordinate("a", "1")], &mut disk).unwrap_err();
    assert_eq!(e.kind, ErrorKind::FileNotFound);
    assert_eq!(e.msg, "Can't find a");
    assert!(disk.is_empty());
}

#[test]
fn download_all_fails_on_an_aar_without_classes_jar() {
    let mut w = World::new();
    w.serve(project("a", "1", vec![]), "aar", b"no archive".to_vec());
    let mut r = w.resolver();
    let mut disk = Disk::new();
    let e = run(&mut r, &[coordinate("a", "1")], &mut disk).unwrap_err();
    assert_eq!(e.kind, ErrorKind::ClientError);
    assert!(disk.is_empty());
}

#[test]
fn download_all_without_roots_finishes_at_once() {
    let mut r = World::new().resolver();
    let mut walk = Walk::new(&[]);
    match r.step(&mut walk, Event::Start) {
        Action::Finish { resolved } => assert!(resolved.is_empty()),
        other => panic!("unexpected action {:?}", other),
    }
}

#[test]
fn step_refuses_an_event_that_the_stage_does_not_expect() {
    let mut w = World::new();
    w.serve(project("a", "1", vec![]), "jar", vec![1]);
    let mut r = w.resolver();
    let mut walk = Walk::new(&[coordinate("a", "1")]);
    match r.step(&mut walk, Event::Written) {
        Action::Fail { error } => {
            assert_eq!(error.kind, ErrorKind::ClientError);
            assert_eq!(error.msg, "Invalid input data: unexpected event");
        },
        other => panic!("unexpected action {:?}", other),
    }
    assert_eq!(walk.pending(), 1);
    assert!(matches!(r.step(&mut walk, Event::Start), Action::Probe { .. }));
    assert!(matches!(r.step(&mut walk, Event::Start), Action::Fail { .. }));
    assert!(matches!(r.step(&mut walk, Event::Written), Action::Fail { .. }));
    assert!(matches!(r.step(&mut walk, Event::Probed { exists: false }), Action::Write { .. }));
    assert!(matches!(r.step(&mut walk, Event::Probed { exists: true }), Action::Fail { .. }));
    assert!(matches!(r.step(&mut walk, Event::Written), Action::Finish { .. }));
    assert!(matches!(r.step(&mut walk, Event::Start), Action::Fail { .. }));
}

#[test]
fn step_probes_with_the_directory_and_path_of_the_project() {
    let mut w = World::new();
    w.serve(project("a", "1.0", vec![]), "jar", vec![1]);
    let mut r = w.resolver();
    let mut walk = Walk::new(&[coordinate("a", "1.0")]);
    match r.step(&mut walk, Event::Start) {
        Action::Probe { directory, path } => {
            assert_eq!(directory, "a");
            assert_eq!(path, "a/1.0.jar");
        },
        other => panic!("unexpected action {:?}", other),
    }
    match r.step(&mut walk, Event::Probed { exists: false }) {
        Action::Write { path, contents } => {
            assert_eq!(path, "a/1.0.jar");
            assert_eq!(contents, vec![1u8]);
        },
        other => panic!("unexpected action {:?}", other),
    }
}

#[test]
fn step_after_a_failure_stays_failed() {
    let mut r = World::new().resolver();
    let mut walk = Walk::new(&[coordinate("a", "1")]);
    assert!(matches!(r.step(&mut walk, Event::Start), Action::Fail { .. }));
    match r.step(&mut walk, Event::Start) {
        Action::Fail { error } => assert_eq!(error.msg, "Invalid input data: unexpected event"),
        other => panic!("unexpected action {:?}", other),
    }
}
