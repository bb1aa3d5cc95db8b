//! Content hashes.
//!
//! Every hash is the BLAKE3 digest of some bytes, written as 64 lowercase
//! hexadecimal digits. A directory is hashed through the list of its files:
//! the relative path and the content hash of each file, ordered by path.

use vstd::prelude::*;
use crate::text::{str_compare, text_lt, Order};

verus! {

/// The BLAKE3 digest of `data` as 64 lowercase hexadecimal digits.
pub uninterp spec fn blake3_hex(data: Seq<u8>) -> Seq<char>;

/// Hashes bytes.
///
/// Trusted: `blake3::hash`, followed by `Hash::to_hex`, which writes the 32
/// bytes of the digest as 64 hexadecimal digits.
#[verifier::external_body]
fn blake3_digest(data: &[u8]) -> (r: String)
    ensures
        r@ == blake3_hex(data@),
        r@.len() == 64,
{
    blake3::hash(data).to_hex().to_string()
}

/// The content hash of `data`.
pub fn hash_bytes(data: &[u8]) -> (r: String)
    ensures
        r@ == blake3_hex(data@),
        r@.len() == 64,
{
    blake3_digest(data)
}

/// The content hash of a text: the hash of its UTF-8 encoding.
pub fn hash_text(text: &str) -> (r: String)
    ensures
        r@ == blake3_hex(vstd::utf8::encode_utf8(text@)),
        r@.len() == 64,
{
    blake3_digest(text.as_bytes())
}

/// The size from which a file is read through a memory map rather than in
/// chunks.
pub const MMAP_THRESHOLD: u64 = 4096;

/// The size of the chunks in which a file is streamed.
pub const CHUNK_SIZE: usize = 65536;

/// Whether a file of `size` bytes is read through a memory map. Either way
/// its hash is that of its bytes.
pub fn should_mmap(size: u64) -> (r: bool)
    ensures
        r == (size >= 4096),
{
    size >= MMAP_THRESHOLD
}

/// A file of a directory listing: its path relative to the root, with `/`
/// between components, and the hash of its content.
#[derive(Debug)]
pub struct FileHash {
    pub path: String,
    pub hash: String,
}

/// A listing as mathematical values.
pub open spec fn listing(files: Seq<FileHash>) -> Seq<(Seq<char>, Seq<char>)> {
    files.map_values(|f: FileHash| (f.path@, f.hash@))
}

/// A listing ordered by path with one more file put in. A file whose path
/// is there already takes the place of the earlier one.
pub open spec fn with_file(
    sorted: Seq<(Seq<char>, Seq<char>)>,
    file: (Seq<char>, Seq<char>),
) -> Seq<(Seq<char>, Seq<char>)>
    decreases sorted.len(),
{
    if sorted.len() == 0 {
        seq![file]
    } else if sorted.last().0 == file.0 {
        sorted.drop_last().push(file)
    } else if text_lt(file.0, sorted.last().0) {
        with_file(sorted.drop_last(), file).push(sorted.last())
    } else {
        sorted.push(file)
    }
}

/// The files of a listing ordered by path.
pub open spec fn ordered(files: Seq<(Seq<char>, Seq<char>)>) -> Seq<(Seq<char>, Seq<char>)>
    decreases files.len(),
{
    if files.len() == 0 {
        Seq::<(Seq<char>, Seq<char>)>::empty()
    } else {
        with_file(ordered(files.drop_last()), files.last())
    }
}

/// The text that stands for a listing: for each file a line with its path,
/// a colon and its hash.
pub open spec fn listing_text(files: Seq<(Seq<char>, Seq<char>)>) -> Seq<char>
    decreases files.len(),
{
    if files.len() == 0 {
        Seq::<char>::empty()
    } else {
        listing_text(files.drop_last()) + files.last().0 + ":"@ + files.last().1 + "\n"@
    }
}

/// The hash of a directory with the given files.
pub open spec fn directory_digest(files: Seq<(Seq<char>, Seq<char>)>) -> Seq<char> {
    blake3_hex(vstd::utf8::encode_utf8(listing_text(ordered(files))))
}

proof fn lemma_with_file_at(
    sorted: Seq<(Seq<char>, Seq<char>)>,
    file: (Seq<char>, Seq<char>),
    at: int,
)
    requires
        0 <= at <= sorted.len(),
        forall|j: int|
            at <= j < sorted.len() ==> sorted[j].0 != file.0 && text_lt(file.0, sorted[j].0),
        at > 0 ==> sorted[at - 1].0 == file.0 || !text_lt(file.0, sorted[at - 1].0),
    ensures
        with_file(sorted, file) == (if at > 0 && sorted[at - 1].0 == file.0 {
            sorted.update(at - 1, file)
        } else {
            sorted.insert(at, file)
        }),
    decreases sorted.len(),
{
    if sorted.len() == 0 {
        assert(sorted.insert(0, file) =~= seq![file]);
    } else if at == sorted.len() {
        if sorted.last().0 == file.0 {
            assert(sorted.drop_last().push(file) =~= sorted.update(at - 1, file));
        } else {
            assert(sorted.insert(at, file) =~= sorted.push(file));
        }
    } else {
        lemma_with_file_at(sorted.drop_last(), file, at);
        if at > 0 && sorted[at - 1].0 == file.0 {
            assert(sorted.drop_last().update(at - 1, file).push(sorted.last()) =~= sorted.update(
                at - 1,
                file,
            ));
        } else {
            assert(sorted.drop_last().insert(at, file).push(sorted.last()) =~= sorted.insert(
                at,
                file,
            ));
        }
    }
}

/// The files ordered by path. Of two files with the same path the later one
/// stays.
pub fn sort_listing(files: Vec<FileHash>) -> (out: Vec<FileHash>)
    ensures
        listing(out@) == ordered(listing(files@)),
{
    let ghost all = listing(files@);
    let mut out: Vec<FileHash> = Vec::new();
    let mut rest = files;
    let ghost mut done: int = 0;
    // The files are taken from the end of `rest`, so it is reversed first.
    let mut input: Vec<FileHash> = Vec::new();
    while rest.len() > 0
        invariant
            input@.len() + rest@.len() == files@.len(),
            forall|j: int| 0 <= j < rest@.len() ==> rest@[j] == files@[j],
            forall|j: int|
                0 <= j < input@.len() ==> input@[j] == files@[files@.len() - 1 - j],
        decreases rest@.len(),
    {
        let f = rest.pop().unwrap();
        input.push(f);
    }
    assert(listing(out@) =~= ordered(all.take(0)));
    while input.len() > 0
        invariant
            all == listing(files@),
            0 <= done <= files@.len(),
            input@.len() == files@.len() - done,
            forall|j: int|
                0 <= j < input@.len() ==> input@[j] == files@[files@.len() - 1 - j],
            listing(out@) == ordered(all.take(done)),
        decreases input@.len(),
    {
        let file = input.pop().unwrap();
        assert(file == files@[done]);
        let mut at: usize = out.len();
        let mut replace = false;
        let mut stop = false;
        while at > 0 && !stop
            invariant
                at <= out@.len(),
                replace ==> stop,
                forall|j: int|
                    at <= j < out@.len() ==> out@[j].path@ != file.path@ && text_lt(
                        file.path@,
                        out@[j].path@,
                    ),
                stop ==> at > 0 && (if replace {
                    out@[at - 1].path@ == file.path@
                } else {
                    out@[at - 1].path@ != file.path@ && !text_lt(file.path@, out@[at - 1].path@)
                }),
            decreases
                    (if stop {
                        0int
                    } else {
                        at + 1
                    }),
        {
            match str_compare(file.path.as_str(), out[at - 1].path.as_str()) {
                Order::Less => {
                    at = at - 1;
                },
                Order::Equal => {
                    replace = true;
                    stop = true;
                },
                Order::Greater => {
                    stop = true;
                },
            }
        }
        proof {
            let t = all.take(done + 1);
            assert(t.drop_last() =~= all.take(done));
            assert(t.last() == (file.path@, file.hash@));
            assert forall|j: int| at <= j < listing(out@).len() implies listing(out@)[j].0
                != file.path@ && text_lt(file.path@, listing(out@)[j].0) by {
                assert(listing(out@)[j].0 == out@[j].path@);
            }
            if at > 0 {
                assert(listing(out@)[at - 1].0 == out@[at - 1].path@);
            }
            lemma_with_file_at(listing(out@), (file.path@, file.hash@), at as int);
        }
        let ghost before = out@;
        if replace {
            out.set(at - 1, file);
            assert(listing(out@) =~= listing(before).update(at - 1, (file.path@, file.hash@)));
        } else {
            out.insert(at, file);
            assert(listing(out@) =~= listing(before).insert(at as int, (file.path@, file.hash@)));
        }
        proof {
            done = done + 1;
        }
    }
    assert(all.take(done) =~= all);
    out
}

/// The hash of a directory with the given files. The order in which the
/// files are listed does not matter: they are put in the order of their
/// paths first.
pub fn hash_listing(files: Vec<FileHash>) -> (r: String)
    ensures
        r@ == directory_digest(listing(files@)),
        r@.len() == 64,
{
    let sorted = sort_listing(files);
    let ghost all = listing(sorted@);
    let mut text = String::new();
    let mut i: usize = 0;
    assert(text@ =~= listing_text(all.take(0)));
    while i < sorted.len()
        invariant
            i <= sorted@.len(),
            all == listing(sorted@),
            text@ == listing_text(all.take(i as int)),
        decreases sorted@.len() - i,
    {
        proof {
            let t = all.take(i + 1);
            assert(t.drop_last() =~= all.take(i as int));
            assert(t.last() == (sorted@[i as int].path@, sorted@[i as int].hash@));
        }
        text.append(sorted[i].path.as_str());
        text.append(":");
        text.append(sorted[i].hash.as_str());
        text.append("\n");
        assert(text@ =~= listing_text(all.take(i + 1)));
        i = i + 1;
    }
    assert(all.take(i as int) =~= all);
    hash_text(text.as_str())
}

/// Whether the files of a listing stand in the order of their paths, no
/// path twice.
pub open spec fn strictly_ordered(files: Seq<(Seq<char>, Seq<char>)>) -> bool {
    forall|i: int, j: int|
        0 <= i < j < files.len() ==> text_lt((#[trigger] files[i]).0, (#[trigger] files[j]).0)
}

/// The hash that a listing holds for a path: that of the last file with
/// the path.
pub open spec fn hash_at(files: Seq<(Seq<char>, Seq<char>)>, path: Seq<char>) -> Option<
    Seq<char>,
>
    decreases files.len(),
{
    if files.len() == 0 {
        None
    } else if files.last().0 == path {
        Some(files.last().1)
    } else {
        hash_at(files.drop_last(), path)
    }
}

proof fn lemma_hash_at_member(files: Seq<(Seq<char>, Seq<char>)>, path: Seq<char>)
    ensures
        hash_at(files, path) is Some <==> exists|i: int|
            0 <= i < files.len() && (#[trigger] files[i]).0 == path,
    decreases files.len(),
{
    if files.len() > 0 {
        let rest = files.drop_last();
        lemma_hash_at_member(rest, path);
        if files.last().0 == path {
            assert(files[files.len() - 1].0 == path);
        } else {
            if exists|i: int| 0 <= i < files.len() && (#[trigger] files[i]).0 == path {
                let i = choose|i: int| 0 <= i < files.len() && (#[trigger] files[i]).0 == path;
                assert(rest[i].0 == path);
            }
            if exists|i: int| 0 <= i < rest.len() && (#[trigger] rest[i]).0 == path {
                let i = choose|i: int| 0 <= i < rest.len() && (#[trigger] rest[i]).0 == path;
                assert(files[i].0 == path);
            }
        }
    }
}

proof fn lemma_hash_at_ordered(files: Seq<(Seq<char>, Seq<char>)>, i: int)
    requires
        strictly_ordered(files),
        0 <= i < files.len(),
    ensures
        hash_at(files, files[i].0) == Some(files[i].1),
    decreases files.len(),
{
    if i < files.len() - 1 {
        assert(text_lt(files[i].0, files[files.len() - 1].0));
        crate::text::lemma_text_lt_irreflexive(files[i].0);
        let rest = files.drop_last();
        assert(strictly_ordered(rest)) by {
            assert forall|a: int, b: int| 0 <= a < b < rest.len() implies text_lt(
                (#[trigger] rest[a]).0,
                (#[trigger] rest[b]).0,
            ) by {
                assert(rest[a] == files[a]);
                assert(rest[b] == files[b]);
            }
        }
        assert(rest[i] == files[i]);
        lemma_hash_at_ordered(rest, i);
    }
}

proof fn lemma_with_file(sorted: Seq<(Seq<char>, Seq<char>)>, file: (Seq<char>, Seq<char>))
    requires
        strictly_ordered(sorted),
    ensures
        strictly_ordered(with_file(sorted, file)),
        forall|path: Seq<char>|
            hash_at(with_file(sorted, file), path) == (if path == file.0 {
                Some(file.1)
            } else {
                hash_at(sorted, path)
            }),
        forall|k: int|
            0 <= k < with_file(sorted, file).len() ==> (#[trigger] with_file(sorted, file)[k])
                == file || exists|m: int| 0 <= m < sorted.len() && sorted[m] == with_file(
                sorted,
                file,
            )[k],
    decreases sorted.len(),
{
    let out = with_file(sorted, file);
    if sorted.len() == 0 {
        assert(out =~= seq![file]);
        assert forall|path: Seq<char>|
            hash_at(out, path) == (if path == file.0 {
                Some(file.1)
            } else {
                hash_at(sorted, path)
            }) by {
            assert(out.drop_last() =~= sorted);
        }
    } else {
        let rest = sorted.drop_last();
        let last = sorted.last();
        assert(strictly_ordered(rest)) by {
            assert forall|a: int, b: int| 0 <= a < b < rest.len() implies text_lt(
                (#[trigger] rest[a]).0,
                (#[trigger] rest[b]).0,
            ) by {
                assert(rest[a] == sorted[a]);
                assert(rest[b] == sorted[b]);
            }
        }
        if last.0 == file.0 {
            assert(out.drop_last() =~= rest);
            assert(out.last() == file);
            assert forall|path: Seq<char>|
                hash_at(out, path) == (if path == file.0 {
                    Some(file.1)
                } else {
                    hash_at(sorted, path)
                }) by {}
            assert forall|a: int, b: int| 0 <= a < b < out.len() implies text_lt(
                (#[trigger] out[a]).0,
                (#[trigger] out[b]).0,
            ) by {
                assert(out[a] == sorted[a]);
                if b < out.len() - 1 {
                    assert(out[b] == sorted[b]);
                } else {
                    assert(text_lt(sorted[a].0, sorted[b].0));
                }
            }
            assert forall|k: int| 0 <= k < out.len() implies (#[trigger] out[k]) == file
                || exists|m: int| 0 <= m < sorted.len() && sorted[m] == out[k] by {
                if k < out.len() - 1 {
                    assert(sorted[k] == out[k]);
                }
            }
        } else if text_lt(file.0, last.0) {
            lemma_with_file(rest, file);
            let inner = with_file(rest, file);
            assert(out.drop_last() =~= inner);
            assert(out.last() == last);
            assert forall|path: Seq<char>|
                hash_at(out, path) == (if path == file.0 {
                    Some(file.1)
                } else {
                    hash_at(sorted, path)
                }) by {
                assert(hash_at(inner, path) == (if path == file.0 {
                    Some(file.1)
                } else {
                    hash_at(rest, path)
                }));
            }
            assert forall|k: int| 0 <= k < out.len() implies (#[trigger] out[k]) == file
                || exists|m: int| 0 <= m < sorted.len() && sorted[m] == out[k] by {
                if k < out.len() - 1 {
                    assert(out[k] == inner[k]);
                    if inner[k] != file {
                        let m = choose|m: int| 0 <= m < rest.len() && rest[m] == inner[k];
                        assert(sorted[m] == out[k]);
                    }
                } else {
                    assert(sorted[sorted.len() - 1] == out[k]);
                }
            }
            assert forall|a: int, b: int| 0 <= a < b < out.len() implies text_lt(
                (#[trigger] out[a]).0,
                (#[trigger] out[b]).0,
            ) by {
                assert(out[a] == inner[a]);
                if b < out.len() - 1 {
                    assert(out[b] == inner[b]);
                } else {
                    if inner[a] != file {
                        let m = choose|m: int| 0 <= m < rest.len() && rest[m] == inner[a];
                        assert(sorted[m] == rest[m]);
                        assert(text_lt(sorted[m].0, sorted[sorted.len() - 1].0));
                    }
                }
            }
        } else {
            crate::text::lemma_text_lt_total(file.0, last.0);
            assert(out.drop_last() =~= sorted);
            assert(out.last() == file);
            assert forall|path: Seq<char>|
                hash_at(out, path) == (if path == file.0 {
                    Some(file.1)
                } else {
                    hash_at(sorted, path)
                }) by {}
            assert forall|a: int, b: int| 0 <= a < b < out.len() implies text_lt(
                (#[trigger] out[a]).0,
                (#[trigger] out[b]).0,
            ) by {
                assert(out[a] == sorted[a]);
                if b < out.len() - 1 {
                    assert(out[b] == sorted[b]);
                } else {
                    if a < sorted.len() - 1 {
                        assert(text_lt(sorted[a].0, sorted[sorted.len() - 1].0));
                        crate::text::lemma_text_lt_transitive(sorted[a].0, last.0, file.0);
                    }
                }
            }
            assert forall|k: int| 0 <= k < out.len() implies (#[trigger] out[k]) == file
                || exists|m: int| 0 <= m < sorted.len() && sorted[m] == out[k] by {
                if k < out.len() - 1 {
                    assert(sorted[k] == out[k]);
                }
            }
        }
    }
}

proof fn lemma_ordered(files: Seq<(Seq<char>, Seq<char>)>)
    ensures
        strictly_ordered(ordered(files)),
        forall|path: Seq<char>| hash_at(ordered(files), path) == hash_at(files, path),
    decreases files.len(),
{
    if files.len() > 0 {
        let rest = files.drop_last();
        lemma_ordered(rest);
        lemma_with_file(ordered(rest), files.last());
        assert forall|path: Seq<char>| hash_at(ordered(files), path) == hash_at(files, path) by {
            assert(hash_at(ordered(rest), path) == hash_at(rest, path));
            assert(hash_at(with_file(ordered(rest), files.last()), path) == (if path
                == files.last().0 {
                Some(files.last().1)
            } else {
                hash_at(ordered(rest), path)
            }));
        }
    }
}

proof fn lemma_ordered_unique(a: Seq<(Seq<char>, Seq<char>)>, b: Seq<(Seq<char>, Seq<char>)>)
    requires
        strictly_ordered(a),
        strictly_ordered(b),
        forall|path: Seq<char>| hash_at(a, path) == hash_at(b, path),
    ensures
        a == b,
    decreases a.len() + b.len(),
{
    if a.len() == 0 || b.len() == 0 {
        if a.len() > 0 {
            lemma_hash_at_ordered(a, 0);
            assert(hash_at(b, a[0].0) is None);
        }
        if b.len() > 0 {
            lemma_hash_at_ordered(b, 0);
            assert(hash_at(a, b[0].0) is None);
        }
        assert(a =~= b);
    } else {
        let x = a.last();
        let y = b.last();
        lemma_hash_at_ordered(a, a.len() - 1);
        lemma_hash_at_ordered(b, b.len() - 1);
        lemma_hash_at_member(a, y.0);
        lemma_hash_at_member(b, x.0);
        crate::text::lemma_text_lt_total(x.0, y.0);
        if x.0 != y.0 {
            if text_lt(x.0, y.0) {
                let i = choose|i: int| 0 <= i < a.len() && (#[trigger] a[i]).0 == y.0;
                if i < a.len() - 1 {
                    assert(text_lt(a[i].0, a[a.len() - 1].0));
                }
            } else {
                let i = choose|i: int| 0 <= i < b.len() && (#[trigger] b[i]).0 == x.0;
                if i < b.len() - 1 {
                    assert(text_lt(b[i].0, b[b.len() - 1].0));
                }
            }
        }
        assert(x.0 == y.0);
        assert(x == y);
        let ra = a.drop_last();
        let rb = b.drop_last();
        assert(strictly_ordered(ra)) by {
            assert forall|i: int, j: int| 0 <= i < j < ra.len() implies text_lt(
                (#[trigger] ra[i]).0,
                (#[trigger] ra[j]).0,
            ) by {
                assert(ra[i] == a[i]);
                assert(ra[j] == a[j]);
            }
        }
        assert(strictly_ordered(rb)) by {
            assert forall|i: int, j: int| 0 <= i < j < rb.len() implies text_lt(
                (#[trigger] rb[i]).0,
                (#[trigger] rb[j]).0,
            ) by {
                assert(rb[i] == b[i]);
                assert(rb[j] == b[j]);
            }
        }
        assert forall|path: Seq<char>| hash_at(ra, path) == hash_at(rb, path) by {
            if path == x.0 {
                lemma_hash_at_member(ra, path);
                lemma_hash_at_member(rb, path);
                crate::text::lemma_text_lt_irreflexive(path);
                if hash_at(ra, path) is Some {
                    let i = choose|i: int| 0 <= i < ra.len() && (#[trigger] ra[i]).0 == path;
                    assert(ra[i] == a[i]);
                    assert(text_lt(a[i].0, a[a.len() - 1].0));
                }
                if hash_at(rb, path) is Some {
                    let i = choose|i: int| 0 <= i < rb.len() && (#[trigger] rb[i]).0 == path;
                    assert(rb[i] == b[i]);
                    assert(text_lt(b[i].0, b[b.len() - 1].0));
                }
            } else {
                assert(hash_at(a, path) == hash_at(b, path));
            }
        }
        lemma_ordered_unique(ra, rb);
        assert(a =~= ra.push(x));
        assert(b =~= rb.push(y));
    }
}

/// Listings that hold the same hash for every path have the same digest: the
/// hash of a directory does not depend on the order in which its files are
/// listed.
pub proof fn lemma_digest_ignores_order(
    a: Seq<(Seq<char>, Seq<char>)>,
    b: Seq<(Seq<char>, Seq<char>)>,
)
    requires
        forall|path: Seq<char>| hash_at(a, path) == hash_at(b, path),
    ensures
        ordered(a) == ordered(b),
        directory_digest(a) == directory_digest(b),
{
    lemma_ordered(a);
    lemma_ordered(b);
    assert forall|path: Seq<char>| hash_at(ordered(a), path) == hash_at(ordered(b), path) by {
        assert(hash_at(a, path) == hash_at(b, path));
    }
    lemma_ordered_unique(ordered(a), ordered(b));
}

/// The position of the last `.` of a name that is not its first character.
pub open spec fn last_dot(name: Seq<char>) -> Option<int>
    decreases name.len(),
{
    if name.len() <= 1 {
        None
    } else if name.last() == '.' {
        Some(name.len() - 1)
    } else {
        last_dot(name.drop_last())
    }
}

/// The extension of a file name: what follows its last `.`. A name without
/// a `.` has none, and neither has a name whose only `.` is in front.
pub open spec fn extension_of(name: Seq<char>) -> Option<Seq<char>> {
    match last_dot(name) {
        Some(i) => Some(name.skip(i + 1)),
        None => None,
    }
}

/// The extension of a file name.
pub fn file_extension(name: &str) -> (r: Option<String>)
    ensures
        match r {
            Some(e) => extension_of(name@) == Some(e@),
            None => extension_of(name@) is None,
        },
{
    let chars = crate::text::to_chars(name);
    let mut end: usize = chars.len();
    assert(name@.take(end as int) =~= name@);
    while end > 1
        invariant
            end <= chars@.len(),
            chars@ == name@,
            last_dot(name@) == last_dot(name@.take(end as int)),
        decreases end,
    {
        proof {
            let t = name@.take(end as int);
            assert(t.last() == chars@[end - 1]);
            assert(t.drop_last() =~= name@.take(end - 1));
        }
        if chars[end - 1] == '.' {
            let ext = crate::text::from_chars(&crate::text::chars_slice(&chars, end, chars.len()));
            assert(ext@ =~= name@.skip(end as int));
            return Some(ext);
        }
        end = end - 1;
    }
    None
}

/// Which files of a tree count for its hash.
#[derive(Debug, Clone, Copy, PartialEq, Eq, Structural)]
pub enum TreeFilter {
    /// The source files of a package: what has one of the extensions
    /// `swift`, `h`, `c`, `cpp`, `m`, `mm`, outside hidden files and
    /// directories and `Package.resolved`.
    Sources,
    /// Everything outside `.git`.
    Checkout,
}

/// What to do with an entry of a directory.
#[derive(Debug, Clone, Copy, PartialEq, Eq, Structural)]
pub enum Visit {
    /// Pass over the entry.
    Skip,
    /// Walk the directory.
    Descend,
    /// Hash the file.
    Hash,
}

/// Whether an extension is that of a source file.
pub open spec fn is_source_extension(ext: Seq<char>) -> bool {
    ||| ext == "swift"@
    ||| ext == "h"@
    ||| ext == "c"@
    ||| ext == "cpp"@
    ||| ext == "m"@
    ||| ext == "mm"@
}

/// What a filter does with an entry called `name`.
pub open spec fn visit_of(filter: TreeFilter, name: Seq<char>, is_dir: bool) -> Visit {
    match filter {
        TreeFilter::Sources => if (name.len() > 0 && name[0] == '.') || name
            == "Package.resolved"@ {
            Visit::Skip
        } else if is_dir {
            Visit::Descend
        } else if extension_of(name) is Some && is_source_extension(extension_of(name)->0) {
            Visit::Hash
        } else {
            Visit::Skip
        },
        TreeFilter::Checkout => if name == ".git"@ {
            Visit::Skip
        } else if is_dir {
            Visit::Descend
        } else {
            Visit::Hash
        },
    }
}

/// What a filter does with the entry `name` of a directory.
pub fn visit(filter: TreeFilter, name: &str, is_dir: bool) -> (r: Visit)
    ensures
        r == visit_of(filter, name@, is_dir),
{
    match filter {
        TreeFilter::Sources => {
            let chars = crate::text::to_chars(name);
            if (chars.len() > 0 && chars[0] == '.') || crate::text::str_eq(
                name,
                "Package.resolved",
            ) {
                Visit::Skip
            } else if is_dir {
                Visit::Descend
            } else {
                match file_extension(name) {
                    Some(ext) => {
                        let e = ext.as_str();
                        if crate::text::str_eq(e, "swift") || crate::text::str_eq(e, "h")
                            || crate::text::str_eq(e, "c") || crate::text::str_eq(e, "cpp")
                            || crate::text::str_eq(e, "m") || crate::text::str_eq(e, "mm") {
                            Visit::Hash
                        } else {
                            Visit::Skip
                        }
                    },
                    None => Visit::Skip,
                }
            }
        },
        TreeFilter::Checkout => {
            if crate::text::str_eq(name, ".git") {
                Visit::Skip
            } else if is_dir {
                Visit::Descend
            } else {
                Visit::Hash
            }
        },
    }
}

/// The path of an entry relative to the root of the tree: its name below
/// the relative path of its directory, with `/` between the two.
pub fn entry_key(prefix: &str, name: &str) -> (out: String)
    ensures
        out@ == (if prefix@.len() == 0 {
            name@
        } else {
            prefix@ + "/"@ + name@
        }),
{
    if prefix.unicode_len() == 0 {
        String::from_str(name)
    } else {
        crate::text::concat3(prefix, "/", name)
    }
}

/// The directories in which the sources of a target are looked for, in
/// order.
pub fn source_dir_candidates(project_dir: &str, target: &str) -> (out: Vec<String>)
    ensures
        out@.len() == 4,
        out@[0]@ == crate::paths::joined(crate::paths::joined(project_dir@, "Sources"@), target@),
        out@[1]@ == crate::paths::joined(crate::paths::joined(project_dir@, "Source"@), target@),
        out@[2]@ == crate::paths::joined(crate::paths::joined(project_dir@, "src"@), target@),
        out@[3]@ == crate::paths::joined(project_dir@, target@),
{
    let mut out: Vec<String> = Vec::new();
    out.push(
        crate::paths::join_path(crate::paths::join_path(project_dir, "Sources").as_str(), target),
    );
    out.push(
        crate::paths::join_path(crate::paths::join_path(project_dir, "Source").as_str(), target),
    );
    out.push(crate::paths::join_path(crate::paths::join_path(project_dir, "src").as_str(), target));
    out.push(crate::paths::join_path(project_dir, target));
    out
}

/// The directory whose sources stand for a target: the first candidate
/// that is a directory, else `Sources` in the project.
pub fn choose_source_dir(project_dir: &str, candidates: &Vec<String>, is_dir: &Vec<bool>) -> (out:
    String)
    requires
        is_dir@.len() == candidates@.len(),
    ensures
        (exists|i: int|
            0 <= i < candidates@.len() && #[trigger] is_dir@[i] && out@ == candidates@[i]@
                && forall|j: int| 0 <= j < i ==> !is_dir@[j]) || ((forall|i: int|
            0 <= i < is_dir@.len() ==> !is_dir@[i]) && out@ == crate::paths::joined(
            project_dir@,
            "Sources"@,
        )),
{
    let mut i: usize = 0;
    while i < candidates.len()
        invariant
            i <= candidates@.len(),
            is_dir@.len() == candidates@.len(),
            forall|j: int| 0 <= j < i ==> !is_dir@[j],
        decreases candidates@.len() - i,
    {
        if is_dir[i] {
            return candidates[i].clone();
        }
        i = i + 1;
    }
    crate::paths::join_path(project_dir, "Sources")
}

/// The hash that stands for the manifest of a project: that of the native
/// manifest where there is one, else that of the foreign manifest, else the
/// empty text.
pub fn hash_manifest(native: Option<&[u8]>, foreign: Option<&[u8]>) -> (r: String)
    ensures
        r@ == (match native {
            Some(bytes) => blake3_hex(bytes@),
            None => match foreign {
                Some(bytes) => blake3_hex(bytes@),
                None => Seq::<char>::empty(),
            },
        }),
{
    match native {
        Some(bytes) => hash_bytes(bytes),
        None => match foreign {
            Some(bytes) => hash_bytes(bytes),
            None => String::new(),
        },
    }
}

} // verus!
