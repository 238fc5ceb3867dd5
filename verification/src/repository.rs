//! Remote repositories and the addresses of their artifacts.

use std::sync::Arc;
use vstd::prelude::*;
use vstd::string::StringExecFns;
use crate::artifact::{Artifact, ArtifactView};
use crate::error::{missing_parameter_error, ResolverError, ResolverErrorView};
use crate::text::{owned, push_char};
use crate::version::{clean_version, strip_brackets};

verus! {

/// A remote repository, known by its base URL.
#[derive(Debug)]
pub struct Repository {
    pub base_url: String,
}

/// A group with every `.` turned into `/`.
pub open spec fn slashed(group: Seq<char>) -> Seq<char> {
    group.map_values(
        |c: char|
            if c == '.' {
                '/'
            } else {
                c
            },
    )
}

/// The address of a fully specified coordinate below `base`:
/// `{base}/{group with / for .}/{name}/{version}/{name}-{version}[-{classifier}].{packaging}`,
/// the version without brackets and the packaging `jar` where it is absent.
pub open spec fn artifact_url(base: Seq<char>, id: ArtifactView) -> Seq<char> {
    let name = id.artifact_id->0;
    let version = strip_brackets(id.version->0);
    base + "/"@ + slashed(id.group_id->0) + "/"@ + name + "/"@ + version + "/"@ + name + "-"@
        + version + (match id.classifier {
        Some(c) => "-"@ + c,
        None => Seq::empty(),
    }) + "."@ + (match id.packaging {
        Some(p) => p,
        None => "jar"@,
    })
}

/// The name of the first field that an address needs and `id` lacks, among
/// group, name and version.
pub open spec fn missing_field(id: ArtifactView) -> Option<Seq<char>> {
    if id.group_id is None {
        Some("groupId"@)
    } else if id.artifact_id is None {
        Some("artifactId"@)
    } else if id.version is None {
        Some("version"@)
    } else {
        None
    }
}

/// What building an address gives: the address of a fully specified
/// coordinate, else the error that names the first missing field.
pub open spec fn url_for(
    base: Seq<char>,
    id: ArtifactView,
) -> Result<Seq<char>, ResolverErrorView> {
    match missing_field(id) {
        Some(field) => Err(missing_parameter_error(id, field)),
        None => Ok(artifact_url(base, id)),
    }
}

/// An address is determined by the base URL and the coordinate alone. One is
/// built exactly for the fully specified coordinates; in it the version has
/// no brackets left and the group no dots, character for character.
pub proof fn lemma_url_shape(base: Seq<char>, id: ArtifactView)
    ensures
        id.fully_specified() <==> url_for(base, id) is Ok,
        id.fully_specified() ==> url_for(base, id) == Ok::<Seq<char>, ResolverErrorView>(
            artifact_url(base, id),
        ),
        id.version matches Some(v) ==> !strip_brackets(v).contains('[') && !strip_brackets(
            v,
        ).contains(']'),
        id.group_id matches Some(g) ==> slashed(g).len() == g.len() && !slashed(g).contains('.'),
{
    if let Some(v) = id.version {
        let pred = |c: char| c != '[' && c != ']';
        let cleaned = strip_brackets(v);
        assert forall|i: int| 0 <= i < cleaned.len() implies cleaned[i] != '[' && cleaned[i]
            != ']' by {
            v.lemma_filter_pred(pred, i);
        }
    }
}

/// The view of the outcome of building an address.
pub open spec fn url_outcome(
    r: Result<String, ResolverError>,
) -> Result<Seq<char>, ResolverErrorView> {
    match r {
        Ok(url) => Ok(url@),
        Err(e) => Err(e@),
    }
}

fn append_slashed(out: &mut String, group: &str)
    ensures
        final(out)@ == old(out)@ + slashed(group@),
{
    let ghost start = out@;
    for c in it: group.chars()
        invariant
            it.seq() == group@,
            out@ == start + slashed(group@.take(it.index())),
    {
        let ghost before = group@.take(it.index());
        proof {
            group@.lemma_take_succ_push(it.index());
        }
        if c == '.' {
            push_char(out, '/');
        } else {
            push_char(out, c);
        }
        assert(out@ =~= start + slashed(before.push(c)));
    }
    assert(group@.take(group@.len() as int) =~= group@);
}

impl Repository {
    /// Google's Maven repository.
    pub fn google_maven() -> (r: Arc<Self>)
        ensures
            r.base_url@ == "https://dl.google.com/dl/android/maven2"@,
    {
        Arc::new(Repository { base_url: owned("https://dl.google.com/dl/android/maven2") })
    }

    /// Maven Central.
    pub fn maven_central() -> (r: Arc<Self>)
        ensures
            r.base_url@ == "https://repo.maven.apache.org/maven2"@,
    {
        Arc::new(Repository { base_url: owned("https://repo.maven.apache.org/maven2") })
    }

    /// The address of `id` in this repository. Group, name and version are
    /// required; the first one that is missing is named in the error.
    pub fn url(&self, id: &Artifact) -> (r: Result<String, ResolverError>)
        ensures
            url_outcome(r) == url_for(self.base_url@, id@),
    {
        let group_id = match &id.group_id {
            Some(g) => g,
            None => {
                return Err(ResolverError::missing_parameter(id, "groupId"));
            },
        };
        let artifact_id = match &id.artifact_id {
            Some(a) => a,
            None => {
                return Err(ResolverError::missing_parameter(id, "artifactId"));
            },
        };
        let version = match &id.version {
            Some(v) => clean_version(v.as_str()),
            None => {
                return Err(ResolverError::missing_parameter(id, "version"));
            },
        };
        let mut url = self.base_url.clone();
        url.append("/");
        append_slashed(&mut url, group_id.as_str());
        url.append("/");
        url.append(artifact_id.as_str());
        url.append("/");
        url.append(version.as_str());
        url.append("/");
        url.append(artifact_id.as_str());
        url.append("-");
        url.append(version.as_str());
        match &id.classifier {
            Some(c) => {
                url.append("-");
                url.append(c.as_str());
            },
            None => {},
        }
        url.append(".");
        match &id.packaging {
            Some(p) => url.append(p.as_str()),
            None => url.append("jar"),
        }
        assert(url@ =~= artifact_url(self.base_url@, id@));
        Ok(url)
    }
}

} // verus!
