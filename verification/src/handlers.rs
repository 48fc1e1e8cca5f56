//! The decisions of the HTTP endpoints: how the events of one request —
//! validation, existence, resolution, decoding — map to an outcome, and
//! how outcomes map to status codes. The surrounding HTTP layer performs
//! the filesystem steps and hands the events in.

use vstd::prelude::*;
use crate::metadata::PackageMetadata;
use crate::metadata::json_of;

verus! {

/// The outcome of one request. Forbidden is kept distinct from NotFound:
/// a caller must be able to tell "not allowed" from "does not exist".
#[derive(PartialEq, Eq, Structural, Debug, Clone, Copy)]
pub enum Outcome {
    Success,
    Forbidden,
    NotFound,
    Internal,
}

impl Outcome {
    /// The HTTP status code of each outcome.
    pub fn status_code(&self) -> (r: u16)
        ensures
            *self == Outcome::Success ==> r == 200,
            *self == Outcome::Forbidden ==> r == 403,
            *self == Outcome::NotFound ==> r == 404,
            *self == Outcome::Internal ==> r == 500,
    {
        match self {
            Outcome::Success => 200,
            Outcome::Forbidden => 403,
            Outcome::NotFound => 404,
            Outcome::Internal => 500,
        }
    }
}

/// The metadata endpoint's decision. The events, in the order the request
/// meets them: did the package name validate against the registry root;
/// does the validated path name a directory; did version resolution pick a
/// directory whose descriptor file exists; and the decoded descriptor,
/// when the file could be read and decoded. On success the JSON body is
/// returned with the outcome.
pub fn metadata_outcome(
    name_ok: bool,
    package_is_dir: bool,
    descriptor_found: bool,
    decoded: Option<&PackageMetadata>,
) -> (r: (Outcome, Option<String>))
    ensures
        !name_ok ==> r.0 == Outcome::Forbidden,
        name_ok && !package_is_dir ==> r.0 == Outcome::NotFound,
        name_ok && package_is_dir && !descriptor_found ==> r.0 == Outcome::NotFound,
        (name_ok && package_is_dir && descriptor_found) ==> (match decoded {
            Option::None => r.0 == Outcome::Internal,
            Option::Some(m) => r.0 == Outcome::Success && (r.1 matches Some(b) && b@ == json_of(
                *m,
            )),
        }),
        r.0 == Outcome::Success <==> r.1 is Some,
{
    if !name_ok {
        (Outcome::Forbidden, None)
    } else if !package_is_dir {
        (Outcome::NotFound, None)
    } else if !descriptor_found {
        (Outcome::NotFound, None)
    } else {
        match decoded {
            None => (Outcome::Internal, None),
            Some(m) => (Outcome::Success, Some(m.to_json())),
        }
    }
}

/// The archive endpoint's decision. The events, in order: did the package
/// name validate; does it name a directory; did the derived archive file
/// name validate; does the archive file exist; could it be opened.
pub fn package_outcome(
    name_ok: bool,
    package_is_dir: bool,
    archive_ok: bool,
    file_exists: bool,
    opened: bool,
) -> (r: Outcome)
    ensures
        !name_ok ==> r == Outcome::Forbidden,
        name_ok && !package_is_dir ==> r == Outcome::NotFound,
        name_ok && package_is_dir && !archive_ok ==> r == Outcome::Forbidden,
        (name_ok && package_is_dir && archive_ok && !file_exists) ==> r == Outcome::NotFound,
        (name_ok && package_is_dir && archive_ok && file_exists && !opened) ==> r
            == Outcome::Internal,
        (name_ok && package_is_dir && archive_ok && file_exists && opened) ==> r
            == Outcome::Success,
{
    if !name_ok {
        Outcome::Forbidden
    } else if !package_is_dir {
        Outcome::NotFound
    } else if !archive_ok {
        Outcome::Forbidden
    } else if !file_exists {
        Outcome::NotFound
    } else if !opened {
        Outcome::Internal
    } else {
        Outcome::Success
    }
}

/// The archive's file name for one package and version.
pub fn archive_file_name(name: &str, ver: &str) -> (r: String)
    ensures
        r@ == name@ + "-"@ + ver@ + ".pax"@,
{
    let mut out = name.to_owned();
    out.append("-");
    out.append(ver);
    out.append(".pax");
    out
}

} // verus!
