//! The errors of the resolver.

use vstd::prelude::*;
use vstd::string::StringExecFns;
use crate::artifact::{debug_rendering, debug_string, Artifact, ArtifactView};

verus! {

/// The two kinds of failure. `FileNotFound` is the one signal on which a
/// fallback to the next packaging or repository may proceed.
#[derive(Debug, Clone, Copy, PartialEq, Eq, Structural)]
pub enum ErrorKind {
    /// Malformed input, a missing coordinate field, an unparseable
    /// descriptor, an unexpected transport failure.
    ClientError,
    /// The resource is absent at the repository and packaging asked for.
    FileNotFound,
}

/// An error with its kind and a message for people.
#[derive(Debug)]
pub struct ResolverError {
    pub kind: ErrorKind,
    pub msg: String,
}

/// What a [`ResolverError`] stands for.
pub struct ResolverErrorView {
    pub kind: ErrorKind,
    pub msg: Seq<char>,
}

impl View for ResolverError {
    type V = ResolverErrorView;

    open spec fn view(&self) -> ResolverErrorView {
        ResolverErrorView { kind: self.kind, msg: self.msg@ }
    }
}

/// The error for a coordinate that lacks the field `field_name`.
pub open spec fn missing_parameter_error(
    fqn: ArtifactView,
    field_name: Seq<char>,
) -> ResolverErrorView {
    ResolverErrorView {
        kind: ErrorKind::ClientError,
        msg: "'"@ + field_name + "' is missing from "@ + fqn.display(),
    }
}

/// The error for input data that is not valid.
pub open spec fn invalid_data_error(details: Seq<char>) -> ResolverErrorView {
    ResolverErrorView { kind: ErrorKind::ClientError, msg: "Invalid input data: "@ + details }
}

/// The error for a coordinate that cannot be resolved.
pub open spec fn cant_resolve_error(
    artifact_id: ArtifactView,
    cause: Seq<char>,
) -> ResolverErrorView {
    ResolverErrorView {
        kind: ErrorKind::ClientError,
        msg: "Can't resolve "@ + debug_rendering(artifact_id) + ": "@ + cause,
    }
}

/// The error for a resource that is absent.
pub open spec fn file_not_found_error(url: Seq<char>) -> ResolverErrorView {
    ResolverErrorView { kind: ErrorKind::FileNotFound, msg: "Can't find "@ + url }
}

impl ResolverError {
    /// A required field of a coordinate is absent.
    pub fn missing_parameter(fqn: &Artifact, field_name: &str) -> (e: Self)
        ensures
            e@ == missing_parameter_error(fqn@, field_name@),
    {
        let mut msg = String::from_str("'");
        msg.append(field_name);
        msg.append("' is missing from ");
        let shown = fqn.to_string();
        msg.append(shown.as_str());
        ResolverError { kind: ErrorKind::ClientError, msg }
    }

    /// The input data is not valid.
    pub fn invalid_data(details: &str) -> (e: Self)
        ensures
            e@ == invalid_data_error(details@),
    {
        let mut msg = String::from_str("Invalid input data: ");
        msg.append(details);
        ResolverError { kind: ErrorKind::ClientError, msg }
    }

    /// A coordinate cannot be resolved, for the given cause.
    pub fn cant_resolve(artifact_id: &Artifact, cause: &str) -> (e: Self)
        ensures
            e@ == cant_resolve_error(artifact_id@, cause@),
    {
        let mut msg = String::from_str("Can't resolve ");
        let shown = debug_string(artifact_id);
        msg.append(shown.as_str());
        msg.append(": ");
        msg.append(cause);
        ResolverError { kind: ErrorKind::ClientError, msg }
    }

    /// The resource at `url` is absent.
    pub fn file_not_found(url: &str) -> (e: Self)
        ensures
            e@ == file_not_found_error(url@),
    {
        let mut msg = String::from_str("Can't find ");
        msg.append(url);
        ResolverError { kind: ErrorKind::FileNotFound, msg }
    }
}

} // verus!
