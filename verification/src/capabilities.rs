//! The capabilities that the caller supplies: transport and descriptor
//! parsing.

use vstd::prelude::*;
use crate::error::ResolverError;
use crate::project::Project;

verus! {

/// The transport: an HTTP GET that answers `FileNotFound` for a resource
/// that the repository lacks and `ClientError` for every other failure.
pub trait UrlFetcher {
    /// The body at `url`, decoded as text.
    fn fetch(&self, url: &str) -> Result<String, ResolverError>;

    /// The body at `url`, as bytes.
    fn fetch_bytes(&self, url: &str) -> Result<bytes::Bytes, ResolverError>;
}

/// The descriptor parser: turns the text of a POM into a [`Project`], or
/// answers `ClientError` for text that is no descriptor.
pub trait PomParser {
    /// The project that `input` describes.
    fn parse(&self, input: String) -> Result<Project, ResolverError>;
}

/// `outcome` is what a call of `fetch` gave for the address `url`.
pub open spec fn answers_text<F: UrlFetcher>(
    fetcher: &F,
    url: Seq<char>,
    outcome: Result<String, ResolverError>,
) -> bool {
    exists|asked: &str|
        asked@ == url && #[trigger] call_ensures(F::fetch, (fetcher, asked), outcome)
}

/// `outcome` is what a call of `fetch_bytes` gave for the address `url`.
pub open spec fn answers_bytes<F: UrlFetcher>(
    fetcher: &F,
    url: Seq<char>,
    outcome: Result<bytes::Bytes, ResolverError>,
) -> bool {
    exists|asked: &str|
        asked@ == url && #[trigger] call_ensures(F::fetch_bytes, (fetcher, asked), outcome)
}

/// `outcome` is what a call of `parse` gave for the text `input`.
pub open spec fn parses<P: PomParser>(
    parser: &P,
    input: Seq<char>,
    outcome: Result<Project, ResolverError>,
) -> bool {
    exists|given: String|
        given@ == input && #[trigger] call_ensures(P::parse, (parser, given), outcome)
}

} // verus!
