//! The layout of the global content-addressed store.
//!
//! Under the root of the store, file blobs live in
//! `store/v<version>/files/<prefix>/<hash>`, where the prefix is made of the
//! first two digits of the hash; package metadata in
//! `store/v<version>/packages/<name>@<version>/metadata.json`; package
//! checkouts in `git/<name>`; and artifact archives in `binary-cache`.

use vstd::prelude::*;
use crate::hasher::{blake3_hex, hash_bytes};
use crate::namemap::NameMap;
use crate::paths::{join_path, joined};
use crate::text::{chars_slice, decimal, from_chars, push_decimal, to_chars};

verus! {

/// What can go wrong in the store. The text is the message of the failed
/// operation.
#[derive(Debug)]
pub enum CacheError {
    CreateDirError(String),
    ReadError(String),
    WriteError(String),
    LinkError(String),
    NoCacheDir,
    PackageNotFound(String),
}

/// The message of an error.
pub open spec fn cache_error_text(e: CacheError) -> Seq<char> {
    match e {
        CacheError::CreateDirError(m) => "Failed to create cache directory: "@ + m@,
        CacheError::ReadError(m) => "Failed to read file: "@ + m@,
        CacheError::WriteError(m) => "Failed to write file: "@ + m@,
        CacheError::LinkError(m) => "Failed to create hard link: "@ + m@,
        CacheError::NoCacheDir => "Cache directory not found"@,
        CacheError::PackageNotFound(m) => "Package not in cache: "@ + m@,
    }
}

impl CacheError {
    /// The message of the error.
    pub fn to_string(&self) -> (out: String)
        ensures
            out@ == cache_error_text(*self),
    {
        match self {
            CacheError::CreateDirError(m) => crate::text::concat(
                "Failed to create cache directory: ",
                m.as_str(),
            ),
            CacheError::ReadError(m) => crate::text::concat("Failed to read file: ", m.as_str()),
            CacheError::WriteError(m) => crate::text::concat("Failed to write file: ", m.as_str()),
            CacheError::LinkError(m) => crate::text::concat(
                "Failed to create hard link: ",
                m.as_str(),
            ),
            CacheError::NoCacheDir => String::from_str("Cache directory not found"),
            CacheError::PackageNotFound(m) => crate::text::concat(
                "Package not in cache: ",
                m.as_str(),
            ),
        }
    }
}

/// The directory of a store version: `store/v<version>` under the root.
pub open spec fn version_dir(root: Seq<char>, version: u32) -> Seq<char> {
    joined(joined(root, "store"@), "v"@ + decimal(version as nat))
}

/// Where the blob with the given hash lives.
pub open spec fn blob_path(root: Seq<char>, version: u32, hash: Seq<char>) -> Seq<char> {
    joined(joined(joined(version_dir(root, version), "files"@), hash.take(2)), hash)
}

/// The global store.
#[derive(Debug)]
pub struct GlobalCache {
    root: String,
    version: u32,
}

/// Where a piece of content goes in the store: the key under which it is
/// filed, which is the hash of the content, and the path of the blob.
#[derive(Debug)]
pub struct StoreTarget {
    pub hash: String,
    pub path: String,
}

impl GlobalCache {
    /// The root directory of the store.
    pub closed spec fn root(&self) -> Seq<char> {
        self.root@
    }

    /// The version of the store layout.
    pub closed spec fn version(&self) -> u32 {
        self.version
    }

    /// The store at `root`, in the current layout.
    pub fn open_at(root: &str) -> (r: Self)
        ensures
            r.root() == root@,
            r.version() == 1,
    {
        GlobalCache { root: String::from_str(root), version: 1 }
    }

    fn version_dir(&self) -> (out: String)
        ensures
            out@ == version_dir(self.root(), self.version()),
    {
        let mut v = String::from_str("v");
        push_decimal(&mut v, self.version as u64);
        join_path(join_path(self.root.as_str(), "store").as_str(), v.as_str())
    }

    /// The directory of the file blobs.
    pub fn files_dir(&self) -> (out: String)
        ensures
            out@ == joined(version_dir(self.root(), self.version()), "files"@),
    {
        join_path(self.version_dir().as_str(), "files")
    }

    /// The directory of the package metadata.
    pub fn packages_dir(&self) -> (out: String)
        ensures
            out@ == joined(version_dir(self.root(), self.version()), "packages"@),
    {
        join_path(self.version_dir().as_str(), "packages")
    }

    /// The directory of the package checkouts.
    pub fn git_dir(&self) -> (out: String)
        ensures
            out@ == joined(self.root(), "git"@),
    {
        join_path(self.root.as_str(), "git")
    }

    /// The directory of the artifact archives.
    pub fn binary_cache_dir(&self) -> (out: String)
        ensures
            out@ == joined(self.root(), "binary-cache"@),
    {
        join_path(self.root.as_str(), "binary-cache")
    }

    /// The directories that an open store needs: those of the blobs, of the
    /// metadata and of the checkouts.
    pub fn required_dirs(&self) -> (out: Vec<String>)
        ensures
            out@.len() == 3,
            out@[0]@ == joined(version_dir(self.root(), self.version()), "files"@),
            out@[1]@ == joined(version_dir(self.root(), self.version()), "packages"@),
            out@[2]@ == joined(self.root(), "git"@),
    {
        let mut out: Vec<String> = Vec::new();
        out.push(self.files_dir());
        out.push(self.packages_dir());
        out.push(self.git_dir());
        out
    }

    /// The content hash of `data`.
    pub fn hash_bytes(data: &[u8]) -> (r: String)
        ensures
            r@ == blake3_hex(data@),
            r@.len() == 64,
    {
        hash_bytes(data)
    }

    /// The path of the blob with the given hash.
    pub fn content_path(&self, hash: &str) -> (out: String)
        requires
            hash@.len() >= 2,
        ensures
            out@ == blob_path(self.root(), self.version(), hash@),
    {
        let chars = to_chars(hash);
        let prefix = from_chars(&chars_slice(&chars, 0, 2));
        assert(hash@.subrange(0, 2) =~= hash@.take(2));
        join_path(join_path(self.files_dir().as_str(), prefix.as_str()).as_str(), hash)
    }

    /// Where `data` is stored: under the hash of its bytes. Content that is
    /// there already is not written again.
    pub fn store_target(&self, data: &[u8]) -> (t: StoreTarget)
        ensures
            t.hash@ == blake3_hex(data@),
            t.path@ == blob_path(self.root(), self.version(), t.hash@),
    {
        let hash = hash_bytes(data);
        let path = self.content_path(hash.as_str());
        StoreTarget { hash, path }
    }

    /// The directory of the checkout of the package `name`.
    pub fn checkout_dir(&self, name: &str) -> (out: String)
        ensures
            out@ == joined(joined(self.root(), "git"@), name@),
    {
        join_path(self.git_dir().as_str(), name)
    }
}

/// What is known of a package in the store.
#[derive(Debug)]
pub struct PackageMetadata {
    pub name: String,
    pub version: String,
    /// For each file its content hash.
    pub files: NameMap<String>,
    /// Total size in bytes.
    pub total_size: u64,
}

/// Where the metadata of a package version lives.
pub open spec fn metadata_path_of(
    root: Seq<char>,
    layout: u32,
    name: Seq<char>,
    version: Seq<char>,
) -> Seq<char> {
    joined(
        joined(joined(version_dir(root, layout), "packages"@), name + "@"@ + version),
        "metadata.json"@,
    )
}

impl PackageMetadata {
    /// Where the metadata of version `version` of `name` lives in `cache`.
    pub fn path_for(cache: &GlobalCache, name: &str, version: &str) -> (out: String)
        ensures
            out@ == metadata_path_of(cache.root(), cache.version(), name@, version@),
    {
        let dir = crate::text::concat3(name, "@", version);
        join_path(join_path(cache.packages_dir().as_str(), dir.as_str()).as_str(), "metadata.json")
    }

    /// Where this metadata lives in `cache`.
    pub fn path(&self, cache: &GlobalCache) -> (out: String)
        ensures
            out@ == metadata_path_of(cache.root(), cache.version(), self.name@, self.version@),
    {
        PackageMetadata::path_for(cache, self.name.as_str(), self.version.as_str())
    }
}

/// What to do next when a blob is linked into a workspace.
#[derive(Debug)]
pub enum LinkAction {
    /// Create the directory that is to hold the destination.
    EnsureParent,
    /// Remove what is at the destination.
    RemoveExisting,
    /// Hard-link the blob to the destination.
    HardLink,
    /// Copy the blob to the destination.
    Copy,
    /// The destination holds the content.
    Done,
    /// Give up with this error.
    Fail(CacheError),
}

/// How far the linking of a blob has come.
#[derive(Debug, Clone, Copy, PartialEq, Eq, Structural)]
pub enum LinkState {
    Start,
    ParentReady,
    Cleared,
    LinkTried,
    Finished,
}

/// What the last action led to.
#[derive(Debug)]
pub enum LinkEvent {
    /// Nothing has been done yet.
    Begin,
    /// The last action succeeded; `dest_exists` tells whether something is
    /// at the destination.
    Succeeded { dest_exists: bool },
    /// The last action failed with the given message.
    Failed(String),
}

/// The next state and action when a blob is linked to a destination: the
/// parent directory is created, whatever is at the destination is removed,
/// a hard link is tried, and where that fails the blob is copied.
pub open spec fn link_transition(state: LinkState, event: LinkEvent) -> (LinkState, LinkAction) {
    match (state, event) {
        (LinkState::Start, _) => (LinkState::ParentReady, LinkAction::EnsureParent),
        (LinkState::ParentReady, LinkEvent::Failed(m)) => (
            LinkState::Finished,
            LinkAction::Fail(CacheError::CreateDirError(m)),
        ),
        (LinkState::ParentReady, LinkEvent::Succeeded { dest_exists }) => if dest_exists {
            (LinkState::Cleared, LinkAction::RemoveExisting)
        } else {
            (LinkState::LinkTried, LinkAction::HardLink)
        },
        (LinkState::ParentReady, LinkEvent::Begin) => (LinkState::LinkTried, LinkAction::HardLink),
        (LinkState::Cleared, LinkEvent::Failed(m)) => (
            LinkState::Finished,
            LinkAction::Fail(CacheError::WriteError(m)),
        ),
        (LinkState::Cleared, _) => (LinkState::LinkTried, LinkAction::HardLink),
        (LinkState::LinkTried, LinkEvent::Failed(_)) => (LinkState::Finished, LinkAction::Copy),
        (LinkState::LinkTried, _) => (LinkState::Finished, LinkAction::Done),
        (LinkState::Finished, LinkEvent::Failed(m)) => (
            LinkState::Finished,
            LinkAction::Fail(CacheError::WriteError(m)),
        ),
        (LinkState::Finished, _) => (LinkState::Finished, LinkAction::Done),
    }
}

/// The next state and action when a blob is linked to a destination.
pub fn link_step(state: LinkState, event: LinkEvent) -> (r: (LinkState, LinkAction))
    ensures
        r == link_transition(state, event),
{
    match state {
        LinkState::Start => (LinkState::ParentReady, LinkAction::EnsureParent),
        LinkState::ParentReady => match event {
            LinkEvent::Failed(m) => (
                LinkState::Finished,
                LinkAction::Fail(CacheError::CreateDirError(m)),
            ),
            LinkEvent::Succeeded { dest_exists } => if dest_exists {
                (LinkState::Cleared, LinkAction::RemoveExisting)
            } else {
                (LinkState::LinkTried, LinkAction::HardLink)
            },
            LinkEvent::Begin => (LinkState::LinkTried, LinkAction::HardLink),
        },
        LinkState::Cleared => match event {
            LinkEvent::Failed(m) => (LinkState::Finished, LinkAction::Fail(CacheError::WriteError(m))),
            _ => (LinkState::LinkTried, LinkAction::HardLink),
        },
        LinkState::LinkTried => match event {
            LinkEvent::Failed(_) => (LinkState::Finished, LinkAction::Copy),
            _ => (LinkState::Finished, LinkAction::Done),
        },
        LinkState::Finished => match event {
            LinkEvent::Failed(m) => (LinkState::Finished, LinkAction::Fail(CacheError::WriteError(m))),
            _ => (LinkState::Finished, LinkAction::Done),
        },
    }
}

} // verus!
