//! The platform and the Swift toolchain.

use vstd::prelude::*;
use crate::text::{concat3, has_substring, split, split_on, str_contains, to_chars, views};

verus! {

/// What can go wrong when the toolchain is looked for.
#[derive(Debug)]
pub enum PlatformError {
    SwiftNotFound,
    /// The toolchain could not be run; the text is the message.
    ExecutionError(String),
    /// The output of the toolchain names no version; the text is the output.
    VersionParseError(String),
}

/// The message of an error.
pub open spec fn platform_error_text(e: PlatformError) -> Seq<char> {
    match e {
        PlatformError::SwiftNotFound => "Swift toolchain not found"@,
        PlatformError::ExecutionError(m) => "Failed to execute swift: "@ + m@,
        PlatformError::VersionParseError(m) => "Failed to parse Swift version: "@ + m@,
    }
}

impl PlatformError {
    /// The message of the error.
    pub fn to_string(&self) -> (out: String)
        ensures
            out@ == platform_error_text(*self),
    {
        match self {
            PlatformError::SwiftNotFound => String::from_str("Swift toolchain not found"),
            PlatformError::ExecutionError(m) => crate::text::concat(
                "Failed to execute swift: ",
                m.as_str(),
            ),
            PlatformError::VersionParseError(m) => crate::text::concat(
                "Failed to parse Swift version: ",
                m.as_str(),
            ),
        }
    }
}

/// The platform that the program runs on.
#[derive(Debug)]
pub struct PlatformInfo {
    /// Operating system: `macos`, `linux`, `windows`.
    pub os: String,
    /// Processor architecture: `aarch64`, `x86_64`.
    pub arch: String,
    /// Platform triple, such as `arm64-apple-macosx`.
    pub triple: String,
}

/// The platform triple of an operating system and an architecture.
pub open spec fn triple_of(os: Seq<char>, arch: Seq<char>) -> Seq<char> {
    if os == "macos"@ && arch == "aarch64"@ {
        "arm64-apple-macosx"@
    } else if os == "macos"@ && arch == "x86_64"@ {
        "x86_64-apple-macosx"@
    } else if os == "linux"@ && arch == "aarch64"@ {
        "aarch64-unknown-linux-gnu"@
    } else if os == "linux"@ && arch == "x86_64"@ {
        "x86_64-unknown-linux-gnu"@
    } else {
        "unknown"@
    }
}

impl PlatformInfo {
    /// The platform with the given operating system and architecture.
    pub fn describe(os: &str, arch: &str) -> (r: Self)
        ensures
            r.os@ == os@,
            r.arch@ == arch@,
            r.triple@ == triple_of(os@, arch@),
    {
        let mac = crate::text::str_eq(os, "macos");
        let linux = crate::text::str_eq(os, "linux");
        let arm = crate::text::str_eq(arch, "aarch64");
        let intel = crate::text::str_eq(arch, "x86_64");
        let triple = if mac && arm {
            "arm64-apple-macosx"
        } else if mac && intel {
            "x86_64-apple-macosx"
        } else if linux && arm {
            "aarch64-unknown-linux-gnu"
        } else if linux && intel {
            "x86_64-unknown-linux-gnu"
        } else {
            "unknown"
        };
        PlatformInfo {
            os: String::from_str(os),
            arch: String::from_str(arch),
            triple: String::from_str(triple),
        }
    }

    /// The name of the platform in cache keys: `<os>-<arch>`.
    pub fn cache_key(&self) -> (out: String)
        ensures
            out@ == self.os@ + "-"@ + self.arch@,
    {
        concat3(self.os.as_str(), "-", self.arch.as_str())
    }
}

/// Whether `c` is a decimal digit.
pub open spec fn is_digit(c: char) -> bool {
    '0' <= c && c <= '9'
}

/// The number that a text of digits writes, read from the left.
pub open spec fn digits_value(s: Seq<char>) -> nat
    decreases s.len(),
{
    if s.len() == 0 {
        0
    } else {
        digits_value(s.drop_last()) * 10 + ((s.last() as u32) - ('0' as u32)) as nat
    }
}

/// Whether every character of `s` is a decimal digit.
pub open spec fn all_digits(s: Seq<char>) -> bool {
    forall|i: int| 0 <= i < s.len() ==> is_digit(#[trigger] s[i])
}

/// The number that a text stands for: digits, with a `+` in front where one
/// likes, of a value that 32 bits can hold. Anything else is no number.
pub open spec fn parsed_number(s: Seq<char>) -> Option<u32> {
    let digits = if s.len() > 0 && s[0] == '+' {
        s.skip(1)
    } else {
        s
    };
    if digits.len() > 0 && all_digits(digits) && digits_value(digits) <= u32::MAX {
        Some(digits_value(digits) as u32)
    } else {
        None
    }
}

proof fn lemma_digits_grow(s: Seq<char>, n: int)
    requires
        0 <= n <= s.len(),
        forall|i: int| 0 <= i < s.len() ==> is_digit(s[i]),
    ensures
        digits_value(s.take(n)) <= digits_value(s),
    decreases s.len() - n,
{
    if n < s.len() {
        lemma_digits_grow(s, n + 1);
        assert(s.take(n + 1).drop_last() =~= s.take(n));
    } else {
        assert(s.take(n) =~= s);
    }
}

/// Reads a number: see `parsed_number`.
pub fn parse_number(s: &str) -> (r: Option<u32>)
    ensures
        r == parsed_number(s@),
{
    let chars = to_chars(s);
    let start: usize = if chars.len() > 0 && chars[0] == '+' {
        1
    } else {
        0
    };
    let ghost digits = if s@.len() > 0 && s@[0] == '+' {
        s@.skip(1)
    } else {
        s@
    };
    if start == chars.len() {
        return None;
    }
    let mut value: u64 = 0;
    let mut i: usize = start;
    assert(digits.take(0) =~= Seq::<char>::empty());
    while i < chars.len()
        invariant
            start <= i <= chars@.len(),
            start <= 1,
            chars@ == s@,
            digits == (if s@.len() > 0 && s@[0] == '+' {
                s@.skip(1)
            } else {
                s@
            }),
            digits.len() == chars@.len() - start,
            digits.len() > 0,
            forall|j: int| 0 <= j < digits.len() ==> digits[j] == chars@[start + j],
            forall|j: int| 0 <= j < i - start ==> is_digit(digits[j]),
            value == digits_value(digits.take(i - start)),
            value <= u32::MAX,
        decreases chars@.len() - i,
    {
        let c = chars[i];
        if !('0' <= c && c <= '9') {
            assert(!is_digit(digits[i - start]));
            assert(!all_digits(digits));
            return None;
        }
        let d: u64 = (c as u32 - '0' as u32) as u64;
        proof {
            let t = digits.take(i - start + 1);
            assert(t.drop_last() =~= digits.take(i - start));
            assert(t.last() == c);
        }
        value = value * 10 + d;
        assert(value == digits_value(digits.take(i - start + 1)));
        if value > u32::MAX as u64 {
            proof {
                if all_digits(digits) {
                    lemma_digits_grow(digits, i - start + 1);
                    assert(digits_value(digits) > u32::MAX);
                }
            }
            return None;
        }
        i = i + 1;
    }
    assert(digits.take(i - start) =~= digits);
    assert(all_digits(digits));
    Some(value as u32)
}

/// The numbers among the pieces of a dotted text, in order.
pub open spec fn dotted_numbers(pieces: Seq<Seq<char>>) -> Seq<u32>
    decreases pieces.len(),
{
    if pieces.len() == 0 {
        Seq::<u32>::empty()
    } else {
        let rest = dotted_numbers(pieces.drop_last());
        match parsed_number(pieces.last()) {
            Some(n) => rest.push(n),
            None => rest,
        }
    }
}

/// The first two numbers of a dotted version text; zero where one is
/// missing. Pieces that are no numbers are passed over.
pub open spec fn leading_numbers(text: Seq<char>) -> (u32, u32) {
    let numbers = dotted_numbers(split(text, '.'));
    (
        if numbers.len() > 0 {
            numbers[0]
        } else {
            0
        },
        if numbers.len() > 1 {
            numbers[1]
        } else {
            0
        },
    )
}

/// The first two numbers of a dotted version text.
pub fn parse_leading_numbers(text: &str) -> (r: (u32, u32))
    ensures
        r == leading_numbers(text@),
{
    let pieces = split_on(text, '.');
    let ghost all = views(pieces@);
    let mut numbers: Vec<u32> = Vec::new();
    let mut i: usize = 0;
    assert(numbers@ =~= dotted_numbers(all.take(0)));
    while i < pieces.len()
        invariant
            i <= pieces@.len(),
            all == views(pieces@),
            numbers@ == dotted_numbers(all.take(i as int)),
        decreases pieces@.len() - i,
    {
        proof {
            let t = all.take(i + 1);
            assert(t.drop_last() =~= all.take(i as int));
            assert(t.last() == pieces@[i as int]@);
        }
        match parse_number(pieces[i].as_str()) {
            Some(n) => {
                numbers.push(n);
            },
            None => {},
        }
        i = i + 1;
    }
    assert(all.take(i as int) =~= all);
    let major = if numbers.len() > 0 {
        numbers[0]
    } else {
        0
    };
    let minor = if numbers.len() > 1 {
        numbers[1]
    } else {
        0
    };
    (major, minor)
}

proof fn lemma_named_version_stays(all: Seq<Seq<char>>, from: int, upto: int)
    requires
        0 <= from <= upto,
        named_version(all, from) is Some,
    ensures
        named_version(all, upto) == named_version(all, from),
    decreases upto - from,
{
    if from < upto {
        lemma_named_version_stays(all, from, upto - 1);
    }
}

/// The Swift toolchain.
#[derive(Debug)]
pub struct SwiftToolchain {
    /// Path to the `swift` binary.
    pub swift_path: String,
    /// Version, such as `5.9.2`.
    pub version: String,
    pub major_version: u32,
    pub minor_version: u32,
}

/// The version that the first `upto` lines of the output of `swift
/// --version` name: the third word of the first line that holds
/// `Swift version` and has three words.
pub open spec fn named_version(all: Seq<Seq<char>>, upto: int) -> Option<Seq<char>>
    decreases upto,
{
    if upto <= 0 {
        None
    } else {
        match named_version(all, upto - 1) {
            Some(v) => Some(v),
            None => {
                let line = all[upto - 1];
                if has_substring(line, "Swift version"@) && crate::text::words(line).len() > 2 {
                    Some(crate::text::words(line)[2])
                } else {
                    None
                }
            },
        }
    }
}

impl SwiftToolchain {
    /// The version that the output of `swift --version` names. Output that
    /// names none is an error that hands the output back.
    pub fn parse_version(output: &str) -> (r: Result<String, PlatformError>)
        ensures
            match r {
                Ok(v) => named_version(
                    crate::text::lines(output@),
                    crate::text::lines(output@).len() as int,
                ) == Some(v@),
                Err(e) => {
                    &&& named_version(
                        crate::text::lines(output@),
                        crate::text::lines(output@).len() as int,
                    ) is None
                    &&& e matches PlatformError::VersionParseError(o)
                    &&& o@ == output@
                },
            },
    {
        let all = crate::text::text_lines(output);
        let ghost model = views(all@);
        assert(model.len() == all@.len());
        let mut i: usize = 0;
        while i < all.len()
            invariant
                i <= all@.len(),
                model == views(all@),
                model == crate::text::lines(output@),
                named_version(model, i as int) is None,
            decreases all@.len() - i,
        {
            assert(model[i as int] == all@[i as int]@);
            if str_contains(all[i].as_str(), "Swift version") {
                let mut parts = crate::text::split_words(all[i].as_str());
                if parts.len() > 2 {
                    let ghost found = views(parts@);
                    let version = parts.swap_remove(2);
                    assert(version@ == found[2]);
                    proof {
                        lemma_named_version_stays(model, i as int + 1, model.len() as int);
                    }
                    return Ok(version);
                }
                assert(views(parts@).len() == parts@.len());
            }
            i = i + 1;
        }
        Err(PlatformError::VersionParseError(String::from_str(output)))
    }

    /// The toolchain at `swift_path` with the given version text.
    pub fn with_version(swift_path: &str, version: &str) -> (r: Self)
        ensures
            r.swift_path@ == swift_path@,
            r.version@ == version@,
            (r.major_version, r.minor_version) == leading_numbers(version@),
    {
        let (major, minor) = parse_leading_numbers(version);
        SwiftToolchain {
            swift_path: String::from_str(swift_path),
            version: String::from_str(version),
            major_version: major,
            minor_version: minor,
        }
    }

    /// Whether this toolchain is at least of the tools version that a
    /// package asks for. Major comes before minor; what the text leaves out
    /// counts as zero.
    pub fn meets_requirement(&self, tools_version: &str) -> (r: bool)
        ensures
            r == ({
                let (major, minor) = leading_numbers(tools_version@);
                self.major_version > major || (self.major_version == major && self.minor_version
                    >= minor)
            }),
    {
        let (major, minor) = parse_leading_numbers(tools_version);
        self.major_version > major || (self.major_version == major && self.minor_version >= minor)
    }
}

} // verus!
