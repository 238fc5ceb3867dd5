use maven_toolbox::{Artifact, OrderedMap, Properties};

fn properties(pairs: &[(&str, &str)]) -> Properties {
    let mut map: Properties = OrderedMap::new();
    for (k, v) in pairs {
        map.insert(k.to_string(), v.to_string());
    }
    map
}

fn some(s: &str) -> Option<String> {
    Some(s.to_string())
}

#[test]
fn new_sets_all_five_fields() {
    let a = Artifact::new("com.example", "a", "1.0", "jar", "sources");
    assert_eq!(a.group_id, some("com.example"));
    assert_eq!(a.artifact_id, some("a"));
    assert_eq!(a.version, some("1.0"));
    assert_eq!(a.packaging, some("jar"));
    assert_eq!(a.classifier, some("sources"));
}

#[test]
fn pom_has_pom_packaging_and_no_classifier() {
    let a = Artifact::pom("com.example", "a", "1.0");
    assert_eq!(a.group_id, some("com.example"));
    assert_eq!(a.artifact_id, some("a"));
    assert_eq!(a.version, some("1.0"));
    assert_eq!(a.packaging, some("pom"));
    assert_eq!(a.classifier, None);
}

#[test]
fn default_is_all_absent() {
    let a = Artifact::default();
    assert_eq!(a.group_id, None);
    assert_eq!(a.artifact_id, None);
    assert_eq!(a.version, None);
    assert_eq!(a.packaging, None);
    assert_eq!(a.classifier, None);
}

#[test]
fn version_cleaned_strips_brackets() {
    let a = Artifact::pom("com.example", "a", "[1.0]");
    assert_eq!(a.version_cleaned(), some("1.0"));
}

#[test]
fn version_cleaned_strips_brackets_wherever_they_stand() {
    let a = Artifact::pom("g", "a", "1.[2].3]");
    assert_eq!(a.version_cleaned(), some("1.2.3"));
}

#[test]
fn version_cleaned_keeps_a_plain_version() {
    let a = Artifact::pom("g", "a", "1.0-SNAPSHOT");
    assert_eq!(a.version_cleaned(), some("1.0-SNAPSHOT"));
}

#[test]
fn version_cleaned_of_absent_version_is_absent() {
    let a = Artifact::default();
    assert_eq!(a.version_cleaned(), None);
}

#[test]
fn interpolate_replaces_a_known_placeholder() {
    let a = Artifact::pom("g", "a", "${lib.ver}");
    let b = a.interpolate(&properties(&[("lib.ver", "3.2.1")]));
    assert_eq!(b.version, some("3.2.1"));
    assert_eq!(b.group_id, some("g"));
    assert_eq!(b.artifact_id, some("a"));
    assert_eq!(b.packaging, some("pom"));
    assert_eq!(b.classifier, None);
}

#[test]
fn interpolate_replaces_a_placeholder_inside_the_literal() {
    let a = Artifact::pom("g", "a", "1.${minor}-beta");
    let b = a.interpolate(&properties(&[("minor", "7")]));
    assert_eq!(b.version, some("1.7-beta"));
}

#[test]
fn interpolate_leaves_an_unknown_placeholder() {
    let a = Artifact::pom("g", "a", "${missing}");
    let b = a.interpolate(&properties(&[("lib.ver", "3.2.1")]));
    assert_eq!(b.version, some("${missing}"));
}

#[test]
fn interpolate_leaves_an_unclosed_placeholder() {
    let a = Artifact::pom("g", "a", "${lib.ver");
    let b = a.interpolate(&properties(&[("lib.ver", "3.2.1")]));
    assert_eq!(b.version, some("${lib.ver"));
}

#[test]
fn interpolate_replaces_only_the_first_placeholder() {
    let a = Artifact::pom("g", "a", "${x}.${x}");
    let b = a.interpolate(&properties(&[("x", "4")]));
    assert_eq!(b.version, some("4.${x}"));
}

#[test]
fn interpolate_leaves_a_plain_version() {
    let a = Artifact::pom("g", "a", "1.0");
    let b = a.interpolate(&properties(&[("1.0", "2.0")]));
    assert_eq!(b.version, some("1.0"));
}

#[test]
fn interpolate_ignores_a_lone_dollar_or_brace() {
    let a = Artifact::pom("g", "a", "1$2{3}");
    let b = a.interpolate(&properties(&[("3", "x")]));
    assert_eq!(b.version, some("1$2{3}"));
}

#[test]
fn interpolate_with_empty_name_looks_up_the_empty_property() {
    let a = Artifact::pom("g", "a", "v${}");
    let b = a.interpolate(&properties(&[("", "9")]));
    assert_eq!(b.version, some("v9"));
}

#[test]
fn interpolate_keeps_an_absent_version_absent() {
    let a = Artifact::default();
    let b = a.interpolate(&properties(&[("x", "4")]));
    assert_eq!(b.version, None);
}

#[test]
fn with_packaging_changes_only_the_packaging() {
    let a = Artifact::new("g", "a", "1", "pom", "c");
    let b = a.with_packaging("jar");
    assert_eq!(b, Artifact::new("g", "a", "1", "jar", "c"));
    assert_eq!(a.packaging, some("pom"));
}

#[test]
fn same_ga_ignores_version_and_packaging() {
    let a = Artifact::new("g", "a", "1", "pom", "c");
    let b = Artifact::pom("g", "a", "2");
    let c = Artifact::pom("g", "b", "1");
    let d = Artifact::pom("h", "a", "1");
    assert!(a.same_ga(&b));
    assert!(!a.same_ga(&c));
    assert!(!a.same_ga(&d));
}

#[test]
fn normalize_fills_missing_fields_from_the_parent() {
    let parent = Artifact::pom("pg", "pa", "9");
    let child = Artifact { artifact_id: some("x"), ..Artifact::default() };
    let n = child.normalize(&parent, "jar");
    assert_eq!(n.group_id, some("pg"));
    assert_eq!(n.artifact_id, some("x"));
    assert_eq!(n.version, some("9"));
    assert_eq!(n.packaging, some("jar"));
    assert_eq!(n.classifier, None);
}

#[test]
fn normalize_keeps_present_fields_and_drops_the_classifier() {
    let parent = Artifact::pom("pg", "pa", "9");
    let child = Artifact::new("g", "a", "1", "aar", "sources");
    let n = child.normalize(&parent, "jar");
    assert_eq!(n.group_id, some("g"));
    assert_eq!(n.artifact_id, some("a"));
    assert_eq!(n.version, some("1"));
    assert_eq!(n.packaging, some("aar"));
    assert_eq!(n.classifier, None);
}

#[test]
fn normalize_against_an_empty_parent_leaves_gaps() {
    let child = Artifact::default();
    let n = child.normalize(&Artifact::default(), "pom");
    assert_eq!(n.group_id, None);
    assert_eq!(n.artifact_id, None);
    assert_eq!(n.version, None);
    assert_eq!(n.packaging, some("pom"));
}

#[test]
fn filename_is_name_slash_version_dot_packaging() {
    let a = Artifact::new("com.example", "b", "[2.0]", "jar", "x");
    assert_eq!(a.filename(), "b/2.0.jar");
}

#[test]
fn display_uses_question_mark_for_absent_fields() {
    let a = Artifact::pom("com.example", "a", "1.0");
    assert_eq!(a.to_string(), "com.example:a:1.0:pom:?");
    assert_eq!(Artifact::default().to_string(), "?:?:?:?:?");
    assert_eq!(Artifact::new("g", "a", "1", "jar", "c").to_string(), "g:a:1:jar:c");
}

#[test]
fn equality_compares_all_five_fields() {
    let a = Artifact::new("g", "a", "1", "jar", "c");
    assert_eq!(a, a.clone());
    assert_ne!(a, Artifact::new("g", "a", "1", "jar", "d"));
    assert_ne!(a, Artifact::new("g", "a", "1", "pom", "c"));
    assert_ne!(a, Artifact::new("g", "a", "2", "jar", "c"));
    assert_ne!(a, Artifact::new("g", "b", "1", "jar", "c"));
    assert_ne!(a, Artifact::new("h", "a", "1", "jar", "c"));
    assert_ne!(Artifact::pom("g", "a", "1"), Artifact::new("g", "a", "1", "pom", ""));
}
