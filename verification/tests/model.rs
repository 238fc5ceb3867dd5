use maven_toolbox::dependency::normalize_gavs;
use maven_toolbox::{
    Artifact, Dependencies, Dependency, DependencyKey, DependencyManagement, OrderedMap, Parent,
    Project, ProjectCache, Properties,
};

fn some(s: &str) -> Option<String> {
    Some(s.to_string())
}

fn dep(group: &str, name: &str, version: &str, scope: Option<&str>) -> Dependency {
    Dependency {
        artifact_fqn: Artifact {
            group_id: some(group),
            artifact_id: some(name),
            version: some(version),
            packaging: None,
            classifier: None,
        },
        scope: scope.map(|s| s.to_string()),
    }
}

fn deps(list: Vec<Dependency>) -> Dependencies {
    let mut map: Dependencies = OrderedMap::new();
    for d in list {
        map.insert(d.get_key(), d);
    }
    map
}

fn project(id: Artifact, parent: Option<Artifact>, own: Vec<Dependency>) -> Project {
    Project {
        parent: parent.map(|p| Parent { artifact_fqn: p }),
        artifact_fqn: id,
        dependency_management: None,
        dependencies: deps(own),
        properties: OrderedMap::new(),
    }
}

fn key(group: &str, name: &str) -> DependencyKey {
    DependencyKey { group_id: some(group), artifact_id: some(name) }
}

#[test]
fn ordered_map_keeps_insertion_order() {
    let mut m: Properties = OrderedMap::new();
    m.insert("b".to_string(), "1".to_string());
    m.insert("a".to_string(), "2".to_string());
    m.insert("c".to_string(), "3".to_string());
    assert_eq!(m.len(), 3);
    assert_eq!(m.key_at(0), "b");
    assert_eq!(m.key_at(1), "a");
    assert_eq!(m.key_at(2), "c");
    assert_eq!(m.value_at(1), "2");
}

#[test]
fn ordered_map_insert_replaces_in_place() {
    let mut m: Properties = OrderedMap::new();
    m.insert("b".to_string(), "1".to_string());
    m.insert("a".to_string(), "2".to_string());
    m.insert("b".to_string(), "9".to_string());
    assert_eq!(m.len(), 2);
    assert_eq!(m.key_at(0), "b");
    assert_eq!(m.value_at(0), "9");
    assert_eq!(m.get(&"b".to_string()), Some(&"9".to_string()));
    assert_eq!(m.get(&"a".to_string()), Some(&"2".to_string()));
}

#[test]
fn ordered_map_get_of_absent_key_is_none() {
    let mut m: Properties = OrderedMap::new();
    assert_eq!(m.get(&"a".to_string()), None);
    assert!(!m.contains_key(&"a".to_string()));
    m.insert("a".to_string(), "2".to_string());
    assert!(m.contains_key(&"a".to_string()));
    assert!(!m.contains_key(&"A".to_string()));
}

#[test]
fn dependency_key_is_group_and_name() {
    let d = dep("g", "a", "1", Some("test"));
    let k = d.get_key();
    assert_eq!(k, key("g", "a"));
    assert_eq!(k.to_string(), "g:a");
    let partial = DependencyKey { group_id: None, artifact_id: some("a") };
    assert_eq!(partial.to_string(), "?:a");
    assert_ne!(partial, k);
}

#[test]
fn dependency_key_ignores_version() {
    assert_eq!(dep("g", "a", "1", None).get_key(), dep("g", "a", "2", Some("test")).get_key());
}

#[test]
fn dependency_normalize_defaults_scope_to_compile() {
    let parent = Artifact::pom("pg", "pa", "9");
    let d = Dependency {
        artifact_fqn: Artifact { artifact_id: some("x"), ..Artifact::default() },
        scope: None,
    };
    let n = d.normalize(&parent, "jar");
    assert_eq!(n.scope, some("compile"));
    assert_eq!(n.artifact_fqn, Artifact {
        group_id: some("pg"),
        artifact_id: some("x"),
        version: some("9"),
        packaging: some("jar"),
        classifier: None,
    });
}

#[test]
fn dependency_normalize_keeps_a_given_scope() {
    let parent = Artifact::pom("pg", "pa", "9");
    let n = dep("g", "a", "1", Some("test")).normalize(&parent, "jar");
    assert_eq!(n.scope, some("test"));
    assert!(n.has_scope("test"));
    assert!(!n.has_scope("compile"));
}

#[test]
fn dependency_default_is_empty() {
    let d = Dependency::default();
    assert_eq!(d.scope, None);
    assert_eq!(d.artifact_fqn, Artifact::default());
}

#[test]
fn normalize_gavs_rekeys_by_the_normalized_dependency() {
    let parent = Artifact::pom("pg", "pa", "9");
    let mut given: Dependencies = OrderedMap::new();
    let partial = Dependency {
        artifact_fqn: Artifact { artifact_id: some("x"), ..Artifact::default() },
        scope: None,
    };
    given.insert(partial.get_key(), partial);
    given.insert(key("g", "a"), dep("g", "a", "1", Some("test")));
    let out = normalize_gavs(given, &parent, "jar");
    assert_eq!(out.len(), 2);
    assert_eq!(out.key_at(0), &key("pg", "x"));
    assert_eq!(out.value_at(0).artifact_fqn.packaging, some("jar"));
    assert_eq!(out.value_at(0).scope, some("compile"));
    assert_eq!(out.key_at(1), &key("g", "a"));
    assert_eq!(out.value_at(1).artifact_fqn.version, some("1"));
    assert_eq!(out.value_at(1).scope, some("test"));
}

#[test]
fn normalize_gavs_keeps_the_later_of_two_entries_with_one_key() {
    let parent = Artifact::pom("pg", "pa", "9");
    let mut given: Dependencies = OrderedMap::new();
    let partial = Dependency {
        artifact_fqn: Artifact { artifact_id: some("x"), version: some("1"), ..Artifact::default() },
        scope: None,
    };
    given.insert(partial.get_key(), partial);
    given.insert(key("pg", "x"), dep("pg", "x", "2", None));
    let out = normalize_gavs(given, &parent, "jar");
    assert_eq!(out.len(), 1);
    assert_eq!(out.key_at(0), &key("pg", "x"));
    assert_eq!(out.value_at(0).artifact_fqn.version, some("2"));
}

#[test]
fn normalized_project_without_parent_only_gets_pom_packaging() {
    let raw = project(
        Artifact { packaging: some("jar"), ..Artifact::pom("g", "a", "1") },
        None,
        vec![dep("g", "x", "1", None)],
    );
    let n = raw.normalized();
    assert_eq!(n.artifact_fqn, Artifact::pom("g", "a", "1"));
    assert!(n.parent.is_none());
    assert_eq!(n.dependencies.value_at(0).artifact_fqn.packaging, None);
    assert_eq!(n.dependencies.value_at(0).scope, None);
}

#[test]
fn normalized_project_with_parent_inherits_and_normalizes() {
    let raw = Project {
        dependency_management: Some(DependencyManagement {
            dependencies: deps(vec![dep("g", "m", "3", None)]),
        }),
        ..project(
            Artifact { artifact_id: some("a"), ..Artifact::default() },
            Some(Artifact { packaging: None, ..Artifact::pom("pg", "p", "9") }),
            vec![dep("g", "x", "1", None), Dependency {
                artifact_fqn: Artifact::new("g", "y", "2", "aar", "c"),
                scope: some("test"),
            }],
        )
    };
    let n = raw.normalized();
    assert_eq!(n.artifact_fqn, Artifact::pom("pg", "a", "9"));
    assert_eq!(n.parent.as_ref().unwrap().artifact_fqn, Artifact::pom("pg", "p", "9"));
    assert_eq!(n.dependencies.len(), 2);
    assert_eq!(n.dependencies.value_at(0).artifact_fqn.packaging, some("jar"));
    assert_eq!(n.dependencies.value_at(0).scope, some("compile"));
    assert_eq!(n.dependencies.value_at(1).artifact_fqn.packaging, some("aar"));
    assert_eq!(n.dependencies.value_at(1).artifact_fqn.classifier, None);
    assert_eq!(n.dependencies.value_at(1).scope, some("test"));
    let dm = n.dependency_management.as_ref().unwrap();
    assert_eq!(dm.dependencies.value_at(0).artifact_fqn.packaging, some("jar"));
}

#[test]
fn set_project_version_sets_the_property() {
    let mut p = project(Artifact::pom("g", "a", "1"), None, vec![]);
    p.properties.insert("project.version".to_string(), "0".to_string());
    p.set_project_version(&some("1.0"));
    assert_eq!(p.properties.get(&"project.version".to_string()), Some(&"1.0".to_string()));
    assert_eq!(p.properties.len(), 1);
    p.set_project_version(&None);
    assert_eq!(p.properties.get(&"project.version".to_string()), Some(&"1.0".to_string()));
}

#[test]
fn inherit_dependencies_lets_the_child_shadow_the_parent() {
    let mut child = project(
        Artifact::pom("g", "a", "1"),
        None,
        vec![dep("g", "x", "2", Some("compile")), dep("g", "own", "1", None)],
    );
    let parent = project(
        Artifact::pom("g", "p", "9"),
        None,
        vec![dep("g", "q", "7", None), dep("g", "x", "1", Some("test")), dep("g", "r", "8", None)],
    );
    child.inherit_dependencies(&parent);
    assert_eq!(child.dependencies.len(), 4);
    assert_eq!(child.dependencies.key_at(0), &key("g", "x"));
    assert_eq!(child.dependencies.key_at(1), &key("g", "own"));
    assert_eq!(child.dependencies.key_at(2), &key("g", "q"));
    assert_eq!(child.dependencies.key_at(3), &key("g", "r"));
    let x = child.dependencies.get(&key("g", "x")).unwrap();
    assert_eq!(x.artifact_fqn.version, some("2"));
    assert_eq!(x.scope, some("compile"));
    assert_eq!(child.dependencies.get(&key("g", "q")).unwrap().artifact_fqn.version, some("7"));
    assert_eq!(parent.dependencies.len(), 3);
}

#[test]
fn interpolate_management_rewrites_only_versions() {
    let mut p = project(Artifact::pom("g", "a", "1"), None, vec![dep("g", "d", "${v}", None)]);
    p.properties.insert("v".to_string(), "3.2.1".to_string());
    p.dependency_management = Some(DependencyManagement {
        dependencies: deps(vec![dep("g", "m", "${v}", Some("import")), dep("g", "n", "5", None)]),
    });
    p.interpolate_management();
    let dm = p.dependency_management.as_ref().unwrap();
    assert_eq!(dm.dependencies.len(), 2);
    assert_eq!(dm.dependencies.value_at(0).artifact_fqn.version, some("3.2.1"));
    assert_eq!(dm.dependencies.value_at(0).scope, some("import"));
    assert_eq!(dm.dependencies.value_at(1).artifact_fqn.version, some("5"));
    assert_eq!(p.dependencies.value_at(0).artifact_fqn.version, some("${v}"));
}

#[test]
fn bom_references_are_the_import_entries_in_order() {
    let mut p = project(Artifact::pom("g", "a", "1"), None, vec![dep("g", "z", "1", Some("import"))]);
    assert!(p.bom_references().is_empty());
    p.dependency_management = Some(DependencyManagement {
        dependencies: deps(vec![
            dep("g", "bom2", "2", Some("import")),
            dep("g", "n", "5", None),
            dep("g", "bom1", "1", Some("import")),
            dep("g", "t", "5", Some("test")),
        ]),
    });
    let boms = p.bom_references();
    assert_eq!(boms.len(), 2);
    assert_eq!(boms[0].artifact_id, some("bom2"));
    assert_eq!(boms[1].artifact_id, some("bom1"));
}

#[test]
fn import_management_lets_the_bom_overwrite() {
    let mut p = project(Artifact::pom("g", "a", "1"), None, vec![]);
    p.dependency_management = Some(DependencyManagement {
        dependencies: deps(vec![dep("g", "y", "1", None), dep("g", "own", "1", None)]),
    });
    let mut bom = project(Artifact::pom("g", "bom", "1"), None, vec![]);
    bom.dependency_management = Some(DependencyManagement {
        dependencies: deps(vec![dep("g", "z", "4", None), dep("g", "y", "5", None)]),
    });
    p.import_management(&bom);
    let dm = p.dependency_management.as_ref().unwrap();
    assert_eq!(dm.dependencies.len(), 3);
    assert_eq!(dm.dependencies.key_at(0), &key("g", "y"));
    assert_eq!(dm.dependencies.value_at(0).artifact_fqn.version, some("5"));
    assert_eq!(dm.dependencies.key_at(1), &key("g", "own"));
    assert_eq!(dm.dependencies.key_at(2), &key("g", "z"));
}

#[test]
fn import_management_without_own_block_changes_nothing() {
    let mut p = project(Artifact::pom("g", "a", "1"), None, vec![]);
    let mut bom = project(Artifact::pom("g", "bom", "1"), None, vec![]);
    bom.dependency_management = Some(DependencyManagement {
        dependencies: deps(vec![dep("g", "y", "5", None)]),
    });
    p.import_management(&bom);
    assert!(p.dependency_management.is_none());
}

#[test]
fn import_management_of_a_bom_without_block_changes_nothing() {
    let mut p = project(Artifact::pom("g", "a", "1"), None, vec![]);
    p.dependency_management = Some(DependencyManagement {
        dependencies: deps(vec![dep("g", "y", "1", None)]),
    });
    let bom = project(Artifact::pom("g", "bom", "1"), None, vec![]);
    p.import_management(&bom);
    let dm = p.dependency_management.as_ref().unwrap();
    assert_eq!(dm.dependencies.len(), 1);
    assert_eq!(dm.dependencies.value_at(0).artifact_fqn.version, some("1"));
}

#[test]
fn compile_dependencies_keep_declaration_order() {
    let p = project(
        Artifact::pom("g", "a", "1"),
        None,
        vec![
            dep("g", "c", "1", Some("compile")),
            dep("g", "t", "1", Some("test")),
            dep("g", "n", "1", None),
            dep("g", "b", "1", Some("compile")),
        ],
    );
    let list = p.compile_dependencies();
    assert_eq!(list.len(), 2);
    assert_eq!(list[0].artifact_id, some("c"));
    assert_eq!(list[1].artifact_id, some("b"));
}

#[test]
fn cache_get_ignores_the_requested_packaging() {
    let mut cache = ProjectCache::new();
    assert_eq!(cache.len(), 0);
    assert!(cache.get(&Artifact::pom("g", "a", "1")).is_none());
    cache.put(project(Artifact::pom("g", "a", "1"), None, vec![dep("g", "x", "1", None)]));
    assert_eq!(cache.len(), 1);
    let jar = Artifact::pom("g", "a", "1").with_packaging("jar");
    assert!(cache.contains(&jar));
    let hit = cache.get(&jar).unwrap();
    assert_eq!(hit.artifact_fqn, Artifact::pom("g", "a", "1"));
    assert_eq!(hit.dependencies.len(), 1);
    assert!(!cache.contains(&Artifact::pom("g", "a", "2")));
}

#[test]
fn cache_put_forces_pom_packaging() {
    let mut cache = ProjectCache::new();
    cache.put(project(Artifact::new("g", "a", "1", "jar", "c"), None, vec![]));
    let hit = cache.get(&Artifact::new("g", "a", "1", "aar", "c")).unwrap();
    assert_eq!(hit.artifact_fqn.packaging, some("pom"));
    assert!(cache.get(&Artifact::pom("g", "a", "1")).is_none());
}

#[test]
fn cache_put_replaces_an_entry_with_the_same_coordinate() {
    let mut cache = ProjectCache::new();
    cache.put(project(Artifact::pom("g", "a", "1"), None, vec![]));
    cache.put(project(Artifact::pom("g", "a", "1"), None, vec![dep("g", "x", "1", None)]));
    assert_eq!(cache.len(), 1);
    assert_eq!(cache.get(&Artifact::pom("g", "a", "1")).unwrap().dependencies.len(), 1);
}

#[test]
fn cache_take_in_normalizes_and_stores() {
    let mut cache = ProjectCache::new();
    let raw = project(
        Artifact { artifact_id: some("a"), ..Artifact::default() },
        Some(Artifact::pom("pg", "p", "9")),
        vec![dep("g", "x", "1", None)],
    );
    let stored = cache.take_in(raw);
    assert_eq!(stored.artifact_fqn, Artifact::pom("pg", "a", "9"));
    let hit = cache.get(&Artifact::pom("pg", "a", "9")).unwrap();
    assert_eq!(hit.artifact_fqn, stored.artifact_fqn);
    assert_eq!(hit.dependencies.value_at(0).artifact_fqn.packaging, some("jar"));
}
