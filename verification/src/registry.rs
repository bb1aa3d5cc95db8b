//! The package registry: what it serves and where.

use vstd::prelude::*;
use crate::namemap::NameMap;
use crate::text::{concat, concat3, push_char};

verus! {

/// What can go wrong with the registry.
#[derive(Debug)]
pub enum RegistryError {
    NotFound(String),
    /// A package and the version of it that is missing.
    VersionNotFound(String, String),
    Network(String),
    InvalidResponse(String),
}

/// The message of an error.
pub open spec fn registry_error_text(e: RegistryError) -> Seq<char> {
    match e {
        RegistryError::NotFound(p) => "Package not found: "@ + p@,
        RegistryError::VersionNotFound(p, v) => "Version not found: "@ + p@ + "@"@ + v@,
        RegistryError::Network(m) => "Network error: "@ + m@,
        RegistryError::InvalidResponse(m) => "Invalid response: "@ + m@,
    }
}

impl RegistryError {
    /// The message of the error.
    pub fn to_string(&self) -> (out: String)
        ensures
            out@ == registry_error_text(*self),
    {
        match self {
            RegistryError::NotFound(p) => concat("Package not found: ", p.as_str()),
            RegistryError::VersionNotFound(p, v) => {
                let mut out = String::from_str("Version not found: ");
                out.append(p.as_str());
                out.append("@");
                out.append(v.as_str());
                out
            },
            RegistryError::Network(m) => concat("Network error: ", m.as_str()),
            RegistryError::InvalidResponse(m) => concat("Invalid response: ", m.as_str()),
        }
    }
}

/// A problem with a release.
#[derive(Debug)]
pub struct ReleaseProblem {
    pub status: String,
    pub title: String,
    pub detail: Option<String>,
}

/// What the listing of a package says of one release.
#[derive(Debug)]
pub struct ReleaseInfo {
    pub url: Option<String>,
    pub problem: Option<ReleaseProblem>,
}

/// The releases of a package, by version.
#[derive(Debug)]
pub struct PackageVersions {
    pub releases: NameMap<ReleaseInfo>,
}

/// A file of a release.
#[derive(Debug)]
pub struct ReleaseResource {
    pub name: String,
    pub resource_type: String,
    pub checksum: Option<String>,
}

/// The license of a release.
#[derive(Debug)]
pub struct LicenseInfo {
    pub name: String,
    pub url: Option<String>,
}

/// The author of a release.
#[derive(Debug)]
pub struct AuthorInfo {
    pub name: String,
    pub email: Option<String>,
    pub url: Option<String>,
}

/// What a release says of itself.
#[derive(Debug)]
pub struct ReleaseMetadata {
    pub description: Option<String>,
    pub license: Option<LicenseInfo>,
    pub author: Option<AuthorInfo>,
    pub repository_urls: Vec<String>,
}

/// A release of a package.
#[derive(Debug)]
pub struct PackageRelease {
    pub id: String,
    pub version: String,
    pub resources: Vec<ReleaseResource>,
    pub metadata: Option<ReleaseMetadata>,
}

/// The name of a package in a registry: a scope and a name.
#[derive(Debug)]
pub struct PackageIdentifier {
    pub scope: String,
    pub name: String,
}

impl PackageIdentifier {
    /// The identifier as `<scope>.<name>`.
    pub fn to_string(&self) -> (out: String)
        ensures
            out@ == self.scope@ + "."@ + self.name@,
    {
        concat3(self.scope.as_str(), ".", self.name.as_str())
    }
}

/// Whether a byte stands for itself in a URL: letters, digits, and the
/// marks `-`, `_`, `.` and `~`.
pub open spec fn is_unreserved(b: u8) -> bool {
    ||| 0x61 <= b <= 0x7a
    ||| 0x41 <= b <= 0x5a
    ||| 0x30 <= b <= 0x39
    ||| b == 0x2d
    ||| b == 0x5f
    ||| b == 0x2e
    ||| b == 0x7e
}

/// The upper-case hexadecimal digit of a value below sixteen.
pub open spec fn hex_upper(n: u8) -> char
    recommends
        n < 16,
{
    if n < 10 {
        (0x30 + n) as u8 as char
    } else {
        (0x41 + n - 10) as u8 as char
    }
}

/// How a byte is written in a URL: as itself, or as `%` and two
/// hexadecimal digits.
pub open spec fn encoded_byte(b: u8) -> Seq<char> {
    if is_unreserved(b) {
        seq![b as char]
    } else {
        seq!['%', hex_upper(b / 16), hex_upper(b % 16)]
    }
}

/// How a sequence of bytes is written in a URL.
pub open spec fn percent_encoded(bytes: Seq<u8>) -> Seq<char>
    decreases bytes.len(),
{
    if bytes.len() == 0 {
        Seq::<char>::empty()
    } else {
        percent_encoded(bytes.drop_last()) + encoded_byte(bytes.last())
    }
}

fn hex_digit(n: u8) -> (c: char)
    requires
        n < 16,
    ensures
        c == hex_upper(n),
{
    if n < 10 {
        (0x30u8 + n) as char
    } else {
        (0x41u8 + n - 10) as char
    }
}

/// Writes a text for use inside a URL: the bytes of its UTF-8 encoding,
/// each as itself where it is a letter, a digit or one of `-_.~`, and as
/// `%XX` otherwise.
pub fn encode(s: &str) -> (out: String)
    ensures
        out@ == percent_encoded(vstd::utf8::encode_utf8(s@)),
{
    let bytes = s.as_bytes();
    let mut out = String::new();
    let mut i: usize = 0;
    assert(out@ =~= percent_encoded(bytes@.take(0)));
    while i < bytes.len()
        invariant
            i <= bytes@.len(),
            out@ == percent_encoded(bytes@.take(i as int)),
        decreases bytes@.len() - i,
    {
        let b = bytes[i];
        proof {
            let t = bytes@.take(i + 1);
            assert(t.drop_last() =~= bytes@.take(i as int));
            assert(t.last() == b);
        }
        let plain = (0x61 <= b && b <= 0x7a) || (0x41 <= b && b <= 0x5a) || (0x30 <= b && b
            <= 0x39) || b == 0x2d || b == 0x5f || b == 0x2e || b == 0x7e;
        if plain {
            push_char(&mut out, b as char);
        } else {
            push_char(&mut out, '%');
            push_char(&mut out, hex_digit(b / 16));
            push_char(&mut out, hex_digit(b % 16));
        }
        assert(out@ =~= percent_encoded(bytes@.take(i + 1)));
        i = i + 1;
    }
    assert(bytes@.take(i as int) =~= bytes@);
    out
}

/// The address of the default registry.
pub const DEFAULT_REGISTRY: &'static str = "https://packages.swift.org";

/// Where the registry at `base` lists the versions of a package.
pub fn package_url(base: &str, scope: &str, name: &str) -> (out: String)
    ensures
        out@ == base@ + "/"@ + scope@ + "/"@ + name@,
{
    let mut out = String::from_str(base);
    out.append("/");
    out.append(scope);
    out.append("/");
    out.append(name);
    out
}

/// Where the registry at `base` describes a version of a package.
pub fn version_url(base: &str, scope: &str, name: &str, version: &str) -> (out: String)
    ensures
        out@ == base@ + "/"@ + scope@ + "/"@ + name@ + "/"@ + version@,
{
    let mut out = package_url(base, scope, name);
    out.append("/");
    out.append(version);
    out
}

/// Where the registry at `base` serves the manifest of a version.
pub fn manifest_url(base: &str, scope: &str, name: &str, version: &str) -> (out: String)
    ensures
        out@ == base@ + "/"@ + scope@ + "/"@ + name@ + "/"@ + version@ + "/Package.swift"@,
{
    let mut out = version_url(base, scope, name, version);
    out.append("/Package.swift");
    out
}

/// Where the registry at `base` serves the source archive of a version.
pub fn archive_url(base: &str, scope: &str, name: &str, version: &str) -> (out: String)
    ensures
        out@ == base@ + "/"@ + scope@ + "/"@ + name@ + "/"@ + version@ + ".zip"@,
{
    let mut out = version_url(base, scope, name, version);
    out.append(".zip");
    out
}

/// Where the registry at `base` names the packages of a repository.
pub fn lookup_url(base: &str, repository: &str) -> (out: String)
    ensures
        out@ == base@ + "/identifiers?url="@ + percent_encoded(
            vstd::utf8::encode_utf8(repository@),
        ),
{
    let mut out = String::from_str(base);
    out.append("/identifiers?url=");
    out.append(encode(repository).as_str());
    out
}

/// The error for a package that the registry does not have.
pub fn package_missing(scope: &str, name: &str) -> (e: RegistryError)
    ensures
        e matches RegistryError::NotFound(p) && p@ == scope@ + "/"@ + name@,
{
    RegistryError::NotFound(concat3(scope, "/", name))
}

/// The error for a version that the registry does not have.
pub fn version_missing(scope: &str, name: &str, version: &str) -> (e: RegistryError)
    ensures
        e matches RegistryError::VersionNotFound(p, v) && p@ == scope@ + "/"@ + name@ && v@
            == version@,
{
    RegistryError::VersionNotFound(concat3(scope, "/", name), String::from_str(version))
}

} // verus!
