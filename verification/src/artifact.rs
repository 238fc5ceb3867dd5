//! Artifact coordinates.

use vstd::prelude::*;
use vstd::std_specs::cmp::PartialEqSpecImpl;
use vstd::string::StringExecFns;
use crate::ordered_map::{Key, Model};
use crate::text::{copy_text, owned, same_text, text};
use crate::version::{clean_version, interpolate_version, interpolated, strip_brackets, Properties};

verus! {

/// The identity of an artifact. Every field may be absent; a coordinate is
/// fully specified when group, name and version are present.
#[derive(Debug, Eq, Hash)]
pub struct Artifact {
    pub group_id: Option<String>,
    pub artifact_id: Option<String>,
    pub version: Option<String>,
    pub packaging: Option<String>,
    pub classifier: Option<String>,
}

/// What an [`Artifact`] stands for: five optional character sequences.
pub struct ArtifactView {
    pub group_id: Option<Seq<char>>,
    pub artifact_id: Option<Seq<char>>,
    pub version: Option<Seq<char>>,
    pub packaging: Option<Seq<char>>,
    pub classifier: Option<Seq<char>>,
}

/// The characters of a field, or `?` where the field is absent.
pub open spec fn or_unknown(field: Option<Seq<char>>) -> Seq<char> {
    match field {
        Some(s) => s,
        None => "?"@,
    }
}

/// `a` where it is present, else `b`.
pub open spec fn or_else(a: Option<Seq<char>>, b: Option<Seq<char>>) -> Option<Seq<char>> {
    if a is Some {
        a
    } else {
        b
    }
}

impl ArtifactView {
    /// Group, name and version are present.
    pub open spec fn fully_specified(self) -> bool {
        self.group_id is Some && self.artifact_id is Some && self.version is Some
    }

    /// The version without brackets, where there is a version.
    pub open spec fn version_cleaned(self) -> Option<Seq<char>> {
        match self.version {
            Some(v) => Some(strip_brackets(v)),
            None => None,
        }
    }

    /// The same coordinate with the given packaging.
    pub open spec fn with_packaging(self, packaging: Seq<char>) -> ArtifactView {
        ArtifactView { packaging: Some(packaging), ..self }
    }

    /// The same coordinate with its version interpolated against `props`.
    pub open spec fn interpolate(self, props: Seq<(Seq<char>, Seq<char>)>) -> ArtifactView {
        ArtifactView {
            version: match self.version {
                Some(v) => Some(interpolated(v, props)),
                None => None,
            },
            ..self
        }
    }

    /// The coordinate with missing group, name and version taken from
    /// `parent` and a missing packaging set to `default_packaging`. The
    /// classifier is not carried over.
    pub open spec fn normalize(
        self,
        parent: ArtifactView,
        default_packaging: Seq<char>,
    ) -> ArtifactView {
        ArtifactView {
            group_id: or_else(self.group_id, parent.group_id),
            artifact_id: or_else(self.artifact_id, parent.artifact_id),
            version: or_else(self.version, parent.version),
            packaging: or_else(self.packaging, Some(default_packaging)),
            classifier: None,
        }
    }

    /// `{name}/{version without brackets}.{packaging}`.
    pub open spec fn filename(self) -> Seq<char> {
        self.artifact_id->0 + "/"@ + strip_brackets(self.version->0) + "."@ + self.packaging->0
    }

    /// `group:name:version:packaging:classifier`, with `?` for an absent field.
    pub open spec fn display(self) -> Seq<char> {
        or_unknown(self.group_id) + ":"@ + or_unknown(self.artifact_id) + ":"@ + or_unknown(
            self.version,
        ) + ":"@ + or_unknown(self.packaging) + ":"@ + or_unknown(self.classifier)
    }
}

impl View for Artifact {
    type V = ArtifactView;

    open spec fn view(&self) -> ArtifactView {
        ArtifactView {
            group_id: text(self.group_id),
            artifact_id: text(self.artifact_id),
            version: text(self.version),
            packaging: text(self.packaging),
            classifier: text(self.classifier),
        }
    }
}

/// The text that `{:?}` formatting produces for a coordinate.
pub uninterp spec fn debug_rendering(a: ArtifactView) -> Seq<char>;

/// Formats a coordinate with `format!("{:?}", ..)`, that is through the
/// derived `Debug` implementation. The text depends on the five fields
/// alone; nothing more is claimed about it.
#[verifier::external_body]
pub(crate) fn debug_string(a: &Artifact) -> (r: String)
    ensures
        r@ == debug_rendering(a@),
{
    format!("{:?}", a)
}

fn append_or_unknown(out: &mut String, field: &Option<String>)
    ensures
        final(out)@ == old(out)@ + or_unknown(text(*field)),
{
    match field {
        Some(s) => out.append(s.as_str()),
        None => out.append("?"),
    }
}

impl Artifact {
    /// A coordinate with all five fields present.
    pub fn new(
        group_id: &str,
        artifact_id: &str,
        version: &str,
        packaging: &str,
        classifier: &str,
    ) -> (a: Self)
        ensures
            a@.group_id == Some(group_id@),
            a@.artifact_id == Some(artifact_id@),
            a@.version == Some(version@),
            a@.packaging == Some(packaging@),
            a@.classifier == Some(classifier@),
    {
        Artifact {
            group_id: Some(owned(group_id)),
            artifact_id: Some(owned(artifact_id)),
            version: Some(owned(version)),
            packaging: Some(owned(packaging)),
            classifier: Some(owned(classifier)),
        }
    }

    /// The coordinate of a project descriptor: packaging `pom`, no classifier.
    pub fn pom(group_id: &str, artifact_id: &str, version: &str) -> (a: Self)
        ensures
            a@.group_id == Some(group_id@),
            a@.artifact_id == Some(artifact_id@),
            a@.version == Some(version@),
            a@.packaging == Some("pom"@),
            a@.classifier is None,
    {
        Artifact {
            group_id: Some(owned(group_id)),
            artifact_id: Some(owned(artifact_id)),
            version: Some(owned(version)),
            packaging: Some(owned("pom")),
            classifier: None,
        }
    }

    /// The version with `[` and `]` removed, as used in URLs and file names.
    pub fn version_cleaned(&self) -> (r: Option<String>)
        ensures
            text(r) == self@.version_cleaned(),
    {
        match &self.version {
            Some(v) => Some(clean_version(v.as_str())),
            None => None,
        }
    }

    /// The coordinate with its version interpolated against `properties`.
    /// Only the version is interpolated.
    pub fn interpolate(&self, properties: &Properties) -> (a: Self)
        ensures
            a@ == self@.interpolate(properties@),
    {
        Artifact {
            group_id: copy_text(&self.group_id),
            artifact_id: copy_text(&self.artifact_id),
            version: match &self.version {
                Some(v) => Some(interpolate_version(v.as_str(), properties)),
                None => None,
            },
            packaging: copy_text(&self.packaging),
            classifier: copy_text(&self.classifier),
        }
    }

    /// The same coordinate with the given packaging.
    pub fn with_packaging(&self, packaging: &str) -> (a: Self)
        ensures
            a@ == self@.with_packaging(packaging@),
    {
        Artifact {
            group_id: copy_text(&self.group_id),
            artifact_id: copy_text(&self.artifact_id),
            version: copy_text(&self.version),
            packaging: Some(owned(packaging)),
            classifier: copy_text(&self.classifier),
        }
    }

    /// Whether both coordinates have the same group and name.
    pub fn same_ga(&self, other: &Self) -> (b: bool)
        ensures
            b == (self@.group_id == other@.group_id && self@.artifact_id == other@.artifact_id),
    {
        same_text(&self.group_id, &other.group_id) && same_text(
            &self.artifact_id,
            &other.artifact_id,
        )
    }

    /// Fills missing group, name and version from `parent` and a missing
    /// packaging with `default_packaging`. The classifier is dropped.
    pub fn normalize(self, parent: &Self, default_packaging: &str) -> (a: Self)
        ensures
            a@ == self@.normalize(parent@, default_packaging@),
    {
        Artifact {
            group_id: match self.group_id {
                Some(s) => Some(s),
                None => copy_text(&parent.group_id),
            },
            artifact_id: match self.artifact_id {
                Some(s) => Some(s),
                None => copy_text(&parent.artifact_id),
            },
            version: match self.version {
                Some(s) => Some(s),
                None => copy_text(&parent.version),
            },
            packaging: match self.packaging {
                Some(s) => Some(s),
                None => Some(owned(default_packaging)),
            },
            classifier: None,
        }
    }

    /// The relative file name `{name}/{version without brackets}.{packaging}`.
    pub fn filename(&self) -> (r: String)
        requires
            self@.artifact_id is Some,
            self@.version is Some,
            self@.packaging is Some,
        ensures
            r@ == self@.filename(),
    {
        let mut out = String::new();
        match &self.artifact_id {
            Some(s) => out.append(s.as_str()),
            None => {},
        }
        out.append("/");
        match &self.version {
            Some(v) => {
                let cleaned = clean_version(v.as_str());
                out.append(cleaned.as_str());
            },
            None => {},
        }
        out.append(".");
        match &self.packaging {
            Some(s) => out.append(s.as_str()),
            None => {},
        }
        assert(out@ =~= self@.filename());
        out
    }

    /// `group:name:version:packaging:classifier`, with `?` for an absent field.
    pub fn to_string(&self) -> (r: String)
        ensures
            r@ == self@.display(),
    {
        let mut out = String::new();
        append_or_unknown(&mut out, &self.group_id);
        out.append(":");
        append_or_unknown(&mut out, &self.artifact_id);
        out.append(":");
        append_or_unknown(&mut out, &self.version);
        out.append(":");
        append_or_unknown(&mut out, &self.packaging);
        out.append(":");
        append_or_unknown(&mut out, &self.classifier);
        assert(out@ =~= self@.display());
        out
    }
}

impl Clone for Artifact {
    fn clone(&self) -> (a: Self)
        ensures
            a@ == self@,
    {
        Artifact {
            group_id: copy_text(&self.group_id),
            artifact_id: copy_text(&self.artifact_id),
            version: copy_text(&self.version),
            packaging: copy_text(&self.packaging),
            classifier: copy_text(&self.classifier),
        }
    }
}

impl Default for Artifact {
    fn default() -> (a: Self)
        ensures
            a@.group_id is None,
            a@.artifact_id is None,
            a@.version is None,
            a@.packaging is None,
            a@.classifier is None,
    {
        Artifact {
            group_id: None,
            artifact_id: None,
            version: None,
            packaging: None,
            classifier: None,
        }
    }
}

impl PartialEq for Artifact {
    fn eq(&self, other: &Self) -> (b: bool) {
        let group = same_text(&self.group_id, &other.group_id);
        let name = same_text(&self.artifact_id, &other.artifact_id);
        let version = same_text(&self.version, &other.version);
        let packaging = same_text(&self.packaging, &other.packaging);
        let classifier = same_text(&self.classifier, &other.classifier);
        let all = group && name && version && packaging && classifier;
        assert(all == (self@ == other@));
        all
    }
}

impl PartialEqSpecImpl for Artifact {
    open spec fn obeys_eq_spec() -> bool {
        true
    }

    open spec fn eq_spec(&self, other: &Self) -> bool {
        self@ == other@
    }
}

impl Model for Artifact {
    fn duplicate(&self) -> (r: Self) {
        self.clone()
    }
}

impl Key for Artifact {
    fn matches(&self, other: &Self) -> (b: bool) {
        *self == *other
    }
}

/// The views of a sequence of coordinates.
pub open spec fn views(v: Seq<Artifact>) -> Seq<ArtifactView> {
    v.map_values(|a: Artifact| a@)
}

/// The views of a sequence stand where its coordinates stand.
pub proof fn lemma_views(s: Seq<Artifact>)
    ensures
        views(s).len() == s.len(),
        forall|i: int| 0 <= i < s.len() ==> #[trigger] views(s)[i] == s[i]@,
{
}

/// Whether `list` holds a coordinate equal to `id`.
pub fn holds(list: &Vec<Artifact>, id: &Artifact) -> (b: bool)
    ensures
        b == views(list@).contains(id@),
{
    let mut i: usize = 0;
    while i < list.len()
        invariant
            i <= list@.len(),
            forall|j: int| 0 <= j < i ==> views(list@)[j] != id@,
        decreases list@.len() - i,
    {
        if list[i] == *id {
            assert(views(list@)[i as int] == id@);
            return true;
        }
        i += 1;
    }
    false
}

} // verus!
