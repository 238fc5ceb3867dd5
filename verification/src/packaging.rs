//! Downloaded archives and the class archive inside them.

use vstd::prelude::*;
use vstd::slice::slice_to_vec;
use crate::error::{invalid_data_error, ResolverError, ResolverErrorView};
use crate::text::same_str;

verus! {

/// The byte buffer of the `bytes` crate.
#[verifier::external_type_specification]
#[verifier::external_body]
pub struct ExBytes(bytes::Bytes);

/// The bytes that a buffer holds, in order.
pub uninterp spec fn bytes_contents(b: bytes::Bytes) -> Seq<u8>;

/// Calls `Bytes::as_ref`, which hands out the slice of bytes that the
/// buffer holds.
#[verifier::external_body]
pub(crate) fn bytes_as_slice(b: &bytes::Bytes) -> (r: &[u8])
    ensures
        r@ == bytes_contents(*b),
{
    b.as_ref()
}

/// The decompressed contents of the entry `name` of the zip archive
/// `archive`; or, where the bytes are no readable archive, the entry is
/// absent, needs a password, or its data is damaged, the text of the error.
pub uninterp spec fn zip_entry(archive: Seq<u8>, name: Seq<char>) -> Result<Seq<u8>, Seq<char>>;

/// Reads one entry of an in-memory zip archive with the `zip` crate:
/// `ZipArchive::new` on a cursor over the bytes, `by_name_decrypt` with an
/// empty password, then `read_to_end` on the entry. A failure of any of the
/// three calls comes back as the text of its error. The claim is only that
/// the outcome depends on the bytes and the name alone: nothing is read but
/// the given bytes. `by_name_decrypt` is called rather than `by_name`
/// because it hands back an entry with unusable encryption data as an
/// error.
#[verifier::external_body]
pub(crate) fn read_zip_entry(archive: &[u8], name: &str) -> (r: Result<Vec<u8>, String>)
    ensures
        entry_outcome(r) == zip_entry(archive@, name@),
{
    let cursor = std::io::Cursor::new(archive);
    let mut zip = zip::read::ZipArchive::new(cursor).map_err(|e| e.to_string())?;
    let mut entry = match zip.by_name_decrypt(name, &[]).map_err(|e| e.to_string())? {
        Ok(entry) => entry,
        Err(e) => return Err(e.to_string()),
    };
    let mut contents = Vec::new();
    std::io::Read::read_to_end(&mut entry, &mut contents).map_err(|e| e.to_string())?;
    Ok(contents)
}

/// A downloaded archive, tagged with the packaging under which it was found.
#[derive(Debug)]
pub enum Packaging {
    /// An Android archive: a zip container that holds `classes.jar`.
    Aar(bytes::Bytes),
    /// A class archive, usable as it is.
    Jar(bytes::Bytes),
}

/// What a [`Packaging`] stands for.
pub enum PackagingView {
    Aar(Seq<u8>),
    Jar(Seq<u8>),
}

impl View for Packaging {
    type V = PackagingView;

    open spec fn view(&self) -> PackagingView {
        match self {
            Packaging::Aar(b) => PackagingView::Aar(bytes_contents(*b)),
            Packaging::Jar(b) => PackagingView::Jar(bytes_contents(*b)),
        }
    }
}

/// The view of the outcome of reading an archive entry.
pub open spec fn entry_outcome(r: Result<Vec<u8>, String>) -> Result<Seq<u8>, Seq<char>> {
    match r {
        Ok(v) => Ok(v@),
        Err(m) => Err(m@),
    }
}

/// The view of the outcome of an extraction.
pub open spec fn contents_outcome(
    r: Result<Vec<u8>, ResolverError>,
) -> Result<Seq<u8>, ResolverErrorView> {
    match r {
        Ok(v) => Ok(v@),
        Err(e) => Err(e@),
    }
}

/// What an extraction gives for the outcome of reading `classes.jar`: the
/// entry's contents, or the failure as invalid input data.
pub open spec fn unwrapped(
    outcome: Result<Seq<u8>, Seq<char>>,
) -> Result<Seq<u8>, ResolverErrorView> {
    match outcome {
        Ok(contents) => Ok(contents),
        Err(message) => Err(invalid_data_error(message)),
    }
}

/// The archive that one download attempt delivers: the body of a successful
/// transport call, tagged with the packaging that was asked for; nothing
/// where the transport failed, whatever its error.
pub open spec fn delivery(
    packaging: Seq<char>,
    outcome: Result<Seq<u8>, ResolverErrorView>,
) -> Option<PackagingView> {
    match outcome {
        Ok(body) => if packaging == "aar"@ {
            Some(PackagingView::Aar(body))
        } else if packaging == "jar"@ {
            Some(PackagingView::Jar(body))
        } else {
            None
        },
        Err(_) => None,
    }
}

/// The view of the outcome of a transport call for bytes.
pub open spec fn body_outcome(
    r: Result<bytes::Bytes, ResolverError>,
) -> Result<Seq<u8>, ResolverErrorView> {
    match r {
        Ok(b) => Ok(bytes_contents(b)),
        Err(e) => Err(e@),
    }
}

/// The view of an optional archive.
pub open spec fn delivered_view(p: Option<Packaging>) -> Option<PackagingView> {
    match p {
        Some(p) => Some(p@),
        None => None,
    }
}

/// The class archive of a downloaded archive: the bytes of a `jar` as they
/// are; for an `aar` the decompressed entry `classes.jar`, or a client
/// error where the archive cannot be read or does not hold one.
pub open spec fn class_archive(p: PackagingView) -> Result<Seq<u8>, ResolverErrorView> {
    match p {
        PackagingView::Jar(b) => Ok(b),
        PackagingView::Aar(b) => unwrapped(zip_entry(b, "classes.jar"@)),
    }
}

impl Packaging {
    /// Judges one download attempt for the packaging `packaging`.
    pub fn delivered(
        packaging: &str,
        outcome: Result<bytes::Bytes, ResolverError>,
    ) -> (r: Option<Packaging>)
        ensures
            delivered_view(r) == delivery(packaging@, body_outcome(outcome)),
    {
        match outcome {
            Ok(body) => {
                if same_str(packaging, "aar") {
                    Some(Packaging::Aar(body))
                } else if same_str(packaging, "jar") {
                    Some(Packaging::Jar(body))
                } else {
                    None
                }
            },
            Err(_) => None,
        }
    }

    /// Turns the outcome of reading `classes.jar` into the outcome of the
    /// extraction.
    pub fn unwrap_entry(outcome: Result<Vec<u8>, String>) -> (r: Result<Vec<u8>, ResolverError>)
        ensures
            contents_outcome(r) == unwrapped(entry_outcome(outcome)),
    {
        match outcome {
            Ok(contents) => Ok(contents),
            Err(message) => Err(ResolverError::invalid_data(message.as_str())),
        }
    }

    /// The bytes of the class archive: those of a `jar` as they are; for an
    /// `aar` the decompressed entry `classes.jar`. An `aar` that is no
    /// readable archive, or lacks the entry, is a client error.
    pub fn jar_contents(&self) -> (r: Result<Vec<u8>, ResolverError>)
        ensures
            contents_outcome(r) == class_archive(self@),
    {
        match self {
            Packaging::Jar(bytes) => Ok(slice_to_vec(bytes_as_slice(bytes))),
            Packaging::Aar(bytes) => Self::unwrap_entry(
                read_zip_entry(bytes_as_slice(bytes), "classes.jar"),
            ),
        }
    }
}

} // verus!
