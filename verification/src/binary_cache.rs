//! The cache of build artifacts.
//!
//! The outputs of a build are kept as a compressed archive under the
//! fingerprint of the build: a hash over everything that can change the
//! outputs. A build whose fingerprint is in the cache is restored from the
//! archive instead of being run.

use vstd::prelude::*;
use crate::hasher::{blake3_hex, hash_bytes};
use crate::paths::{join_path, joined};
use crate::text::{concat, views};
use crate::types::BuildConfiguration;

verus! {

/// What can go wrong in the artifact cache.
#[derive(Debug)]
pub enum BinaryCacheError {
    /// The cache holds nothing under the fingerprint.
    CacheMiss(String),
    NetworkError(String),
    IoError(String),
    InvalidSignature,
    DecompressionError(String),
}

/// The message of an error.
pub open spec fn binary_cache_error_text(e: BinaryCacheError) -> Seq<char> {
    match e {
        BinaryCacheError::CacheMiss(m) => "Cache miss for "@ + m@,
        BinaryCacheError::NetworkError(m) => "Network error: "@ + m@,
        BinaryCacheError::IoError(m) => "IO error: "@ + m@,
        BinaryCacheError::InvalidSignature => "Invalid signature"@,
        BinaryCacheError::DecompressionError(m) => "Decompression error: "@ + m@,
    }
}

impl BinaryCacheError {
    /// The message of the error.
    pub fn to_string(&self) -> (out: String)
        ensures
            out@ == binary_cache_error_text(*self),
    {
        match self {
            BinaryCacheError::CacheMiss(m) => concat("Cache miss for ", m.as_str()),
            BinaryCacheError::NetworkError(m) => concat("Network error: ", m.as_str()),
            BinaryCacheError::IoError(m) => concat("IO error: ", m.as_str()),
            BinaryCacheError::InvalidSignature => String::from_str("Invalid signature"),
            BinaryCacheError::DecompressionError(m) => concat("Decompression error: ", m.as_str()),
        }
    }
}

/// The bytes of a text.
pub open spec fn text_bytes(s: Seq<char>) -> Seq<u8> {
    vstd::utf8::encode_utf8(s)
}

/// The bytes of a list of flags, one after the other.
pub open spec fn flags_bytes(flags: Seq<Seq<char>>) -> Seq<u8>
    decreases flags.len(),
{
    if flags.len() == 0 {
        Seq::<u8>::empty()
    } else {
        flags_bytes(flags.drop_last()) + text_bytes(flags.last())
    }
}

/// The bytes that a fingerprint is the hash of: the three hashes, the
/// toolchain version, the platform, the name of the configuration and the
/// flags, one after the other.
pub open spec fn fingerprint_input(
    source_hash: Seq<char>,
    manifest_hash: Seq<char>,
    deps_hash: Seq<char>,
    swift_version: Seq<char>,
    platform: Seq<char>,
    build_config: BuildConfiguration,
    swift_flags: Seq<Seq<char>>,
) -> Seq<u8> {
    text_bytes(source_hash) + text_bytes(manifest_hash) + text_bytes(deps_hash) + text_bytes(
        swift_version,
    ) + text_bytes(platform) + text_bytes(build_config.name()) + flags_bytes(swift_flags)
}

/// The fingerprint of a build with the given inputs.
pub open spec fn fingerprint_of(
    source_hash: Seq<char>,
    manifest_hash: Seq<char>,
    deps_hash: Seq<char>,
    swift_version: Seq<char>,
    platform: Seq<char>,
    build_config: BuildConfiguration,
    swift_flags: Seq<Seq<char>>,
) -> Seq<char> {
    blake3_hex(
        fingerprint_input(
            source_hash,
            manifest_hash,
            deps_hash,
            swift_version,
            platform,
            build_config,
            swift_flags,
        ),
    )
}

fn push_text(buffer: &mut Vec<u8>, text: &str)
    ensures
        final(buffer)@ == old(buffer)@ + text_bytes(text@),
{
    let bytes = text.as_bytes();
    let ghost start = buffer@;
    let mut i: usize = 0;
    assert(buffer@ =~= start + bytes@.take(0));
    while i < bytes.len()
        invariant
            i <= bytes@.len(),
            buffer@ == start + bytes@.take(i as int),
        decreases bytes@.len() - i,
    {
        buffer.push(bytes[i]);
        assert(buffer@ =~= start + bytes@.take(i + 1));
        i = i + 1;
    }
    assert(bytes@.take(i as int) =~= bytes@);
}

/// Everything that the outputs of a build depend on, and the fingerprint
/// that stands for it.
#[derive(Debug)]
pub struct BuildFingerprint {
    /// Hash of the source files.
    pub source_hash: String,
    /// Hash of the manifest.
    pub manifest_hash: String,
    /// Hash of the dependency versions.
    pub deps_hash: String,
    pub swift_version: String,
    /// Platform, such as `macos-arm64`.
    pub platform: String,
    pub build_config: BuildConfiguration,
    pub swift_flags: Vec<String>,
    /// The hash over all of the above.
    pub fingerprint: String,
}

impl BuildFingerprint {
    /// The fingerprint that goes with the other fields.
    pub open spec fn expected(&self) -> Seq<char> {
        fingerprint_of(
            self.source_hash@,
            self.manifest_hash@,
            self.deps_hash@,
            self.swift_version@,
            self.platform@,
            self.build_config,
            views(self.swift_flags@),
        )
    }

    /// The fingerprint of a build with the given inputs. It depends on the
    /// inputs alone.
    pub fn compute(
        source_hash: String,
        manifest_hash: String,
        deps_hash: String,
        swift_version: String,
        platform: String,
        build_config: BuildConfiguration,
        swift_flags: Vec<String>,
    ) -> (r: Self)
        ensures
            r.source_hash == source_hash,
            r.manifest_hash == manifest_hash,
            r.deps_hash == deps_hash,
            r.swift_version == swift_version,
            r.platform == platform,
            r.build_config == build_config,
            r.swift_flags == swift_flags,
            r.fingerprint@ == r.expected(),
            r.fingerprint@.len() == 64,
    {
        let mut buffer: Vec<u8> = Vec::new();
        push_text(&mut buffer, source_hash.as_str());
        push_text(&mut buffer, manifest_hash.as_str());
        push_text(&mut buffer, deps_hash.as_str());
        push_text(&mut buffer, swift_version.as_str());
        push_text(&mut buffer, platform.as_str());
        push_text(&mut buffer, build_config.to_string().as_str());
        let ghost head = buffer@;
        let ghost all = views(swift_flags@);
        let mut i: usize = 0;
        assert(buffer@ =~= head + flags_bytes(all.take(0)));
        while i < swift_flags.len()
            invariant
                i <= swift_flags@.len(),
                all == views(swift_flags@),
                buffer@ == head + flags_bytes(all.take(i as int)),
            decreases swift_flags@.len() - i,
        {
            proof {
                let t = all.take(i + 1);
                assert(t.drop_last() =~= all.take(i as int));
                assert(t.last() == swift_flags@[i as int]@);
            }
            push_text(&mut buffer, swift_flags[i].as_str());
            assert(buffer@ =~= head + flags_bytes(all.take(i + 1)));
            i = i + 1;
        }
        assert(all.take(i as int) =~= all);
        assert(buffer@ =~= fingerprint_input(
            source_hash@,
            manifest_hash@,
            deps_hash@,
            swift_version@,
            platform@,
            build_config,
            all,
        ));
        let fingerprint = hash_bytes(buffer.as_slice());
        BuildFingerprint {
            source_hash,
            manifest_hash,
            deps_hash,
            swift_version,
            platform,
            build_config,
            swift_flags,
            fingerprint,
        }
    }
}

/// Builds with the same inputs have the same fingerprint.
pub proof fn lemma_fingerprint_is_pure(a: BuildFingerprint, b: BuildFingerprint)
    requires
        a.fingerprint@ == a.expected(),
        b.fingerprint@ == b.expected(),
        a.source_hash@ == b.source_hash@,
        a.manifest_hash@ == b.manifest_hash@,
        a.deps_hash@ == b.deps_hash@,
        a.swift_version@ == b.swift_version@,
        a.platform@ == b.platform@,
        a.build_config == b.build_config,
        views(a.swift_flags@) == views(b.swift_flags@),
    ensures
        a.fingerprint@ == b.fingerprint@,
{
}

/// What a remote cache knows of an artifact.
#[derive(Debug)]
pub struct ArtifactInfo {
    pub fingerprint: String,
    pub package: String,
    pub version: String,
    pub platform: String,
    pub swift_version: String,
    pub file_size: u64,
    pub compression: String,
    pub signature: Option<String>,
}

/// Where a remote cache at `base` serves the archive of a fingerprint.
pub fn artifact_url(base: &str, fingerprint: &str) -> (out: String)
    ensures
        out@ == base@ + "/artifacts/"@ + fingerprint@,
{
    crate::text::concat3(base, "/artifacts/", fingerprint)
}

/// Where a remote cache at `base` serves what it knows of an artifact.
pub fn artifact_info_url(base: &str, fingerprint: &str) -> (out: String)
    ensures
        out@ == base@ + "/artifacts/"@ + fingerprint@ + ".info"@,
{
    let mut out = artifact_url(base, fingerprint);
    out.append(".info");
    out
}

/// Whether an HTTP status tells of success: it is one of the 200s.
pub fn is_success(status: u16) -> (r: bool)
    ensures
        r == (200 <= status < 300),
{
    200 <= status && status < 300
}

/// What a download from a remote cache comes to: any status but a success
/// means that the cache lacks the fingerprint.
pub fn check_download(status: u16, fingerprint: &str) -> (r: Result<(), BinaryCacheError>)
    ensures
        match r {
            Ok(_) => 200 <= status < 300,
            Err(e) => {
                &&& !(200 <= status < 300)
                &&& e matches BinaryCacheError::CacheMiss(m)
                &&& m@ == fingerprint@
            },
        },
{
    if is_success(status) {
        Ok(())
    } else {
        Err(BinaryCacheError::CacheMiss(String::from_str(fingerprint)))
    }
}

/// What zstd makes of `data` at the given level: the compressed bytes, or
/// the message of its error.
pub uninterp spec fn zstd_compressed(data: Seq<u8>, level: int) -> Result<Seq<u8>, Seq<char>>;

/// What zstd makes of compressed `data`: the bytes that were compressed,
/// or the message of its error.
pub uninterp spec fn zstd_decompressed(data: Seq<u8>) -> Result<Seq<u8>, Seq<char>>;

/// Compresses bytes.
///
/// Trusted: `zstd::encode_all`, which compresses all of its input into one
/// zstd frame at the given level; on failure the result is the error's
/// message. The compression loses nothing: decompressing the frame gives
/// the input back.
#[verifier::external_body]
fn zstd_encode(data: &[u8], level: i32) -> (r: Result<Vec<u8>, String>)
    ensures
        match r {
            Ok(v) => zstd_compressed(data@, level as int) == Ok::<Seq<u8>, Seq<char>>(v@)
                && zstd_decompressed(v@) == Ok::<Seq<u8>, Seq<char>>(data@),
            Err(e) => zstd_compressed(data@, level as int) == Err::<Seq<u8>, Seq<char>>(e@),
        },
{
    zstd::encode_all(data, level).map_err(|e| e.to_string())
}

/// Decompresses bytes.
///
/// Trusted: `zstd::decode_all`, which decompresses input in the zstd frame
/// format; on failure the result is the error's message.
#[verifier::external_body]
fn zstd_decode(data: &[u8]) -> (r: Result<Vec<u8>, String>)
    ensures
        match r {
            Ok(v) => zstd_decompressed(data@) == Ok::<Seq<u8>, Seq<char>>(v@),
            Err(e) => zstd_decompressed(data@) == Err::<Seq<u8>, Seq<char>>(e@),
        },
{
    zstd::decode_all(data).map_err(|e| e.to_string())
}

/// The level at which archives are compressed: the fastest, since archives
/// are read far more often than written.
pub const ARCHIVE_LEVEL: i32 = 1;

/// Compresses a tar stream into an archive at the given level. Whatever
/// the level, `unpack_archive` makes the tar stream of the archive again.
pub fn pack_archive_at(tar: &[u8], level: i32) -> (r: Result<Vec<u8>, BinaryCacheError>)
    ensures
        match r {
            Ok(v) => zstd_compressed(tar@, level as int) == Ok::<Seq<u8>, Seq<char>>(v@)
                && zstd_decompressed(v@) == Ok::<Seq<u8>, Seq<char>>(tar@),
            Err(e) => e matches BinaryCacheError::DecompressionError(m) && zstd_compressed(
                tar@,
                level as int,
            ) == Err::<Seq<u8>, Seq<char>>(m@),
        },
{
    match zstd_encode(tar, level) {
        Ok(v) => Ok(v),
        Err(m) => Err(BinaryCacheError::DecompressionError(m)),
    }
}

/// Compresses the tar stream of a build directory into an archive, at the
/// level at which archives are kept. What `unpack_archive` makes of the
/// archive is the tar stream again.
pub fn pack_archive(tar: &[u8]) -> (r: Result<Vec<u8>, BinaryCacheError>)
    ensures
        match r {
            Ok(v) => zstd_compressed(tar@, 1) == Ok::<Seq<u8>, Seq<char>>(v@)
                && zstd_decompressed(v@) == Ok::<Seq<u8>, Seq<char>>(tar@),
            Err(e) => e matches BinaryCacheError::DecompressionError(m) && zstd_compressed(tar@, 1)
                == Err::<Seq<u8>, Seq<char>>(m@),
        },
{
    pack_archive_at(tar, ARCHIVE_LEVEL)
}

/// The tar stream inside an archive, whatever level it was compressed at.
pub fn unpack_archive(archive: &[u8]) -> (r: Result<Vec<u8>, BinaryCacheError>)
    ensures
        match r {
            Ok(v) => zstd_decompressed(archive@) == Ok::<Seq<u8>, Seq<char>>(v@),
            Err(e) => e matches BinaryCacheError::DecompressionError(m) && zstd_decompressed(
                archive@,
            ) == Err::<Seq<u8>, Seq<char>>(m@),
        },
{
    match zstd_decode(archive) {
        Ok(v) => Ok(v),
        Err(m) => Err(BinaryCacheError::DecompressionError(m)),
    }
}

/// The name of the archive of a fingerprint.
pub open spec fn archive_name(fingerprint: Seq<char>) -> Seq<char> {
    fingerprint + ".tar.zst"@
}

/// The artifact cache on the local disk.
#[derive(Debug)]
pub struct LocalBinaryCache {
    cache_dir: String,
}

/// What to do with a build directory that is to be stored.
#[derive(Debug, Clone, Copy, PartialEq, Eq, Structural)]
pub enum StoreAction {
    /// The archive is there; nothing is written.
    Keep,
    /// Pack the directory and write the archive.
    Write,
}

impl LocalBinaryCache {
    /// The directory of the archives.
    pub closed spec fn dir(&self) -> Seq<char> {
        self.cache_dir@
    }

    /// The cache in `cache_dir`.
    pub fn new(cache_dir: String) -> (r: Self)
        ensures
            r.dir() == cache_dir@,
    {
        LocalBinaryCache { cache_dir }
    }

    /// Where the archive of `fingerprint` lives.
    pub fn archive_path(&self, fingerprint: &str) -> (out: String)
        ensures
            out@ == joined(self.dir(), archive_name(fingerprint@)),
    {
        join_path(self.cache_dir.as_str(), concat(fingerprint, ".tar.zst").as_str())
    }

    /// The path of the archive of `fingerprint`, given whether it is there.
    pub fn get(&self, fingerprint: &str, present: bool) -> (r: Option<String>)
        ensures
            match r {
                Some(p) => present && p@ == joined(self.dir(), archive_name(fingerprint@)),
                None => !present,
            },
    {
        if present {
            Some(self.archive_path(fingerprint))
        } else {
            None
        }
    }

    /// What to do when the outputs of a build are stored under a
    /// fingerprint: an archive that is there is never written again.
    pub fn store_action(present: bool) -> (r: StoreAction)
        ensures
            r == (if present {
                StoreAction::Keep
            } else {
                StoreAction::Write
            }),
    {
        if present {
            StoreAction::Keep
        } else {
            StoreAction::Write
        }
    }

    /// The error for a fingerprint that the cache lacks.
    pub fn miss(fingerprint: &str) -> (e: BinaryCacheError)
        ensures
            e matches BinaryCacheError::CacheMiss(m) && m@ == fingerprint@,
    {
        BinaryCacheError::CacheMiss(String::from_str(fingerprint))
    }
}

/// Whether a file of the cache directory is an archive: its extension is
/// `zst`.
pub open spec fn is_archive(name: Seq<char>) -> bool {
    crate::hasher::extension_of(name) == Some("zst"@)
}

/// Whether a file of the cache directory is an archive.
pub fn is_archive_name(name: &str) -> (r: bool)
    ensures
        r == is_archive(name@),
{
    match crate::hasher::file_extension(name) {
        Some(ext) => crate::text::str_eq(ext.as_str(), "zst"),
        None => false,
    }
}

/// The number of archives among the first `upto` files.
pub open spec fn archive_count(files: Seq<(String, u64)>, upto: int) -> nat
    decreases upto,
{
    if upto <= 0 {
        0
    } else {
        archive_count(files, upto - 1) + (if is_archive(files[upto - 1].0@) {
            1nat
        } else {
            0nat
        })
    }
}

/// The size of the archives among the first `upto` files together.
pub open spec fn archive_size(files: Seq<(String, u64)>, upto: int) -> nat
    decreases upto,
{
    if upto <= 0 {
        0
    } else {
        archive_size(files, upto - 1) + (if is_archive(files[upto - 1].0@) {
            files[upto - 1].1 as nat
        } else {
            0nat
        })
    }
}

proof fn lemma_archive_count_bound(files: Seq<(String, u64)>, upto: int)
    requires
        0 <= upto,
    ensures
        archive_count(files, upto) <= upto,
    decreases upto,
{
    if upto > 0 {
        lemma_archive_count_bound(files, upto - 1);
    }
}

/// How many archives the cache holds and how large they are together.
#[derive(Debug)]
pub struct CacheStats {
    pub count: usize,
    /// Total size in bytes.
    pub total_size: u64,
}

impl CacheStats {
    /// The statistics of a cache directory with the given files, each with
    /// its size: the archives are counted and their sizes added up. A total
    /// beyond what the number type holds is reported as the largest number.
    pub fn of_files(files: &Vec<(String, u64)>) -> (r: Self)
        ensures
            r.count == archive_count(files@, files@.len() as int),
            r.total_size == (if archive_size(files@, files@.len() as int) <= u64::MAX {
                archive_size(files@, files@.len() as int) as u64
            } else {
                u64::MAX
            }),
    {
        let mut count: usize = 0;
        let mut total: u64 = 0;
        let mut i: usize = 0;
        while i < files.len()
            invariant
                i <= files@.len(),
                count == archive_count(files@, i as int),
                total == (if archive_size(files@, i as int) <= u64::MAX {
                    archive_size(files@, i as int) as u64
                } else {
                    u64::MAX
                }),
            decreases files@.len() - i,
        {
            proof {
                lemma_archive_count_bound(files@, i as int);
            }
            if is_archive_name(files[i].0.as_str()) {
                count = count + 1;
                let size = files[i].1;
                if total > u64::MAX - size {
                    total = u64::MAX;
                } else {
                    total = total + size;
                }
            }
            i = i + 1;
        }
        CacheStats { count, total_size: total }
    }
}

/// A quotient rounded to the nearest whole number, a tie going to the even
/// one.
pub open spec fn rounded_quotient(n: nat, unit: nat) -> nat {
    let q = n / unit;
    let r = n % unit;
    if 2 * r > unit || (2 * r == unit && q % 2 == 1) {
        q + 1
    } else {
        q
    }
}

/// The step between the numbers near `n` that a double-precision number
/// can hold: one up to 53 bits, and twice as much for each further bit.
pub open spec fn double_step(n: nat) -> nat {
    if n < 0x20_0000_0000_0000 {
        1
    } else if n < 0x40_0000_0000_0000 {
        2
    } else if n < 0x80_0000_0000_0000 {
        4
    } else if n < 0x100_0000_0000_0000 {
        8
    } else if n < 0x200_0000_0000_0000 {
        16
    } else if n < 0x400_0000_0000_0000 {
        32
    } else if n < 0x800_0000_0000_0000 {
        64
    } else if n < 0x1000_0000_0000_0000 {
        128
    } else if n < 0x2000_0000_0000_0000 {
        256
    } else if n < 0x4000_0000_0000_0000 {
        512
    } else if n < 0x8000_0000_0000_0000 {
        1024
    } else {
        2048
    }
}

/// A size as a double-precision number holds it: the nearest number that
/// fits into 53 bits, a tie going to the even one.
pub open spec fn as_double(n: nat) -> nat {
    rounded_quotient(n, double_step(n)) * double_step(n)
}

/// A quotient with one decimal place, rounded to the nearest, a tie going
/// to the even one.
pub open spec fn one_place(n: nat, unit: nat) -> Seq<char> {
    let tenths = rounded_quotient(n * 10, unit);
    crate::text::decimal(tenths / 10) + "."@ + crate::text::decimal(tenths % 10)
}

/// A quotient with two decimal places, rounded to the nearest, a tie going
/// to the even one.
pub open spec fn two_places(n: nat, unit: nat) -> Seq<char> {
    let hundredths = rounded_quotient(n * 100, unit);
    crate::text::decimal(hundredths / 100) + "."@ + crate::text::decimal((hundredths % 100) / 10)
        + crate::text::decimal(hundredths % 10)
}

/// A size in words: in bytes below a kilobyte, else in the largest of the
/// units KB, MB and GB that it reaches, with one decimal place, and two
/// for GB. The units go by 1024, and the size counts as a
/// double-precision number holds it.
pub open spec fn size_text(total: u64) -> Seq<char> {
    let size = as_double(total as nat);
    if size < 1024 {
        crate::text::decimal(total as nat) + " B"@
    } else if size < 1024 * 1024 {
        one_place(size, 1024) + " KB"@
    } else if size < 1024 * 1024 * 1024 {
        one_place(size, 1024 * 1024) + " MB"@
    } else {
        two_places(size, 1024 * 1024 * 1024) + " GB"@
    }
}

fn round_quotient(n: u128, unit: u128) -> (r: u128)
    requires
        unit > 0,
        n <= 0x1_0000_0000_0000_0000_0000,
    ensures
        r == rounded_quotient(n as nat, unit as nat),
        r <= n + 1,
        r * unit <= n + unit,
{
    let q = n / unit;
    let r = n % unit;
    assert(q <= n && q * unit <= n && (q + 1) * unit == q * unit + unit) by (nonlinear_arith)
        requires
            q == n / unit,
            unit > 0,
            n >= 0,
    ;
    if r > unit - r || (r == unit - r && q % 2 == 1) {
        q + 1
    } else {
        q
    }
}

fn double_step_of(n: u64) -> (r: u128)
    ensures
        r == double_step(n as nat),
        1 <= r <= 2048,
{
    if n < 0x20_0000_0000_0000 {
        1
    } else if n < 0x40_0000_0000_0000 {
        2
    } else if n < 0x80_0000_0000_0000 {
        4
    } else if n < 0x100_0000_0000_0000 {
        8
    } else if n < 0x200_0000_0000_0000 {
        16
    } else if n < 0x400_0000_0000_0000 {
        32
    } else if n < 0x800_0000_0000_0000 {
        64
    } else if n < 0x1000_0000_0000_0000 {
        128
    } else if n < 0x2000_0000_0000_0000 {
        256
    } else if n < 0x4000_0000_0000_0000 {
        512
    } else if n < 0x8000_0000_0000_0000 {
        1024
    } else {
        2048
    }
}

fn push_small(out: &mut String, n: u128)
    requires
        n <= u64::MAX,
    ensures
        final(out)@ == old(out)@ + crate::text::decimal(n as nat),
{
    crate::text::push_decimal(out, n as u64);
}

impl CacheStats {
    /// The total size in words: see `size_text`.
    pub fn size_human(&self) -> (out: String)
        ensures
            out@ == size_text(self.total_size),
    {
        let step = double_step_of(self.total_size);
        let rounded = round_quotient(self.total_size as u128, step);
        assert(rounded * step <= 0x1_0000_0000_0000_0800);
        let size: u128 = rounded * step;
        let mut out = String::new();
        if size < 1024 {
            crate::text::push_decimal(&mut out, self.total_size);
            out.append(" B");
        } else if size < 1024 * 1024 {
            let tenths = round_quotient(size * 10, 1024);
            push_small(&mut out, tenths / 10);
            out.append(".");
            push_small(&mut out, tenths % 10);
            out.append(" KB");
        } else if size < 1024 * 1024 * 1024 {
            let tenths = round_quotient(size * 10, 1024 * 1024);
            push_small(&mut out, tenths / 10);
            out.append(".");
            push_small(&mut out, tenths % 10);
            out.append(" MB");
        } else {
            let hundredths = round_quotient(size * 100, 1024 * 1024 * 1024);
            assert(hundredths / 100 <= u64::MAX) by {
                assert(size <= 0x1_0000_0000_0000_0800);
                assert(hundredths <= size * 100 + 1);
            }
            push_small(&mut out, hundredths / 100);
            out.append(".");
            push_small(&mut out, (hundredths % 100) / 10);
            push_small(&mut out, hundredths % 10);
            out.append(" GB");
        }
        assert(out@ =~= size_text(self.total_size));
        out
    }
}

/// The cache of parsed foreign manifests. A manifest is filed under the
/// hash of the manifest file.
#[derive(Debug)]
pub struct ManifestCache {
    cache_dir: String,
}

impl ManifestCache {
    /// The directory of the cache.
    pub closed spec fn dir(&self) -> Seq<char> {
        self.cache_dir@
    }

    /// The cache in `cache_dir`.
    pub fn new(cache_dir: String) -> (r: Self)
        ensures
            r.dir() == cache_dir@,
    {
        ManifestCache { cache_dir }
    }

    /// The key of a manifest file with the given content.
    pub fn cache_key(content: &[u8]) -> (r: String)
        ensures
            r@ == blake3_hex(content@),
            r@.len() == 64,
    {
        hash_bytes(content)
    }

    /// Where the entry of `key` lives.
    pub fn entry_path(&self, key: &str) -> (out: String)
        ensures
            out@ == joined(self.dir(), key@ + ".json"@),
    {
        join_path(self.cache_dir.as_str(), concat(key, ".json").as_str())
    }

    /// Whether a file of the cache directory is an entry: its extension is
    /// `json`.
    pub fn is_entry_name(name: &str) -> (r: bool)
        ensures
            r == (crate::hasher::extension_of(name@) == Some("json"@)),
    {
        match crate::hasher::file_extension(name) {
            Some(ext) => crate::text::str_eq(ext.as_str(), "json"),
            None => false,
        }
    }
}

} // verus!
