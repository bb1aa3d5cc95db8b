//! Text helpers shared by the rest of the library.
//!
//! Strings are viewed as sequences of characters. The functions here build
//! and inspect them with exact contracts over those sequences.

use vstd::prelude::*;

verus! {

/// Appends one character to a string.
///
/// Trusted: this is `String::push` of the standard library, which appends the
/// given character to the end of the string.
#[verifier::external_body]
pub(crate) fn push_char(s: &mut String, c: char)
    ensures
        final(s)@ == old(s)@.push(c),
{
    s.push(c)
}

/// The characters of a string, in order.
pub fn to_chars(s: &str) -> (out: Vec<char>)
    ensures
        out@ == s@,
{
    let mut out: Vec<char> = Vec::new();
    for c in it: s.chars()
        invariant
            out@ == s@.take(it.index() as int),
            it.seq() == s@,
    {
        out.push(c);
        assert(s@.take(it.index() + 1) =~= s@.take(it.index() as int).push(c));
    }
    assert(s@.take(s@.len() as int) =~= s@);
    out
}

/// The string made of the given characters.
pub fn from_chars(chars: &Vec<char>) -> (out: String)
    ensures
        out@ == chars@,
{
    let mut out = String::new();
    let mut i: usize = 0;
    while i < chars.len()
        invariant
            i <= chars.len(),
            out@ == chars@.take(i as int),
        decreases chars.len() - i,
    {
        push_char(&mut out, chars[i]);
        assert(chars@.take(i + 1) =~= chars@.take(i as int).push(chars@[i as int]));
        i = i + 1;
    }
    assert(chars@.take(chars@.len() as int) =~= chars@);
    out
}


/// The concatenation of two strings.
pub fn concat(a: &str, b: &str) -> (out: String)
    ensures
        out@ == a@ + b@,
{
    let mut out = String::from_str(a);
    out.append(b);
    out
}

/// The concatenation of three strings.
pub fn concat3(a: &str, b: &str, c: &str) -> (out: String)
    ensures
        out@ == a@ + b@ + c@,
{
    let mut out = String::from_str(a);
    out.append(b);
    out.append(c);
    out
}

/// The character that writes the decimal digit `d`.
pub open spec fn digit_char(d: nat) -> char
    recommends
        d < 10,
{
    (('0' as u8) + d) as u8 as char
}

/// The decimal notation of `n`, without leading zeros.
pub open spec fn decimal(n: nat) -> Seq<char>
    decreases n,
{
    if n < 10 {
        seq![digit_char(n)]
    } else {
        decimal(n / 10).push(digit_char(n % 10))
    }
}

/// Appends the decimal notation of `n` to `out`.
pub fn push_decimal(out: &mut String, n: u64)
    ensures
        final(out)@ == old(out)@ + decimal(n as nat),
    decreases n,
{
    if n >= 10 {
        push_decimal(out, n / 10);
    }
    let d: u8 = (n % 10) as u8;
    let c: char = (48u8 + d) as char;
    assert(c == digit_char((n % 10) as nat));
    push_char(out, c);
    assert(final(out)@ =~= old(out)@ + decimal(n as nat));
}

/// Whether `needle` occurs in `hay` starting at position `at`.
pub open spec fn occurs_at(hay: Seq<char>, needle: Seq<char>, at: int) -> bool {
    &&& 0 <= at
    &&& at + needle.len() <= hay.len()
    &&& hay.subrange(at, at + needle.len()) == needle
}

/// Whether `needle` occurs somewhere in `hay`.
pub open spec fn has_substring(hay: Seq<char>, needle: Seq<char>) -> bool {
    exists|at: int| occurs_at(hay, needle, at)
}

/// Whether `hay` begins with `prefix`.
pub open spec fn has_prefix(hay: Seq<char>, prefix: Seq<char>) -> bool {
    occurs_at(hay, prefix, 0)
}

/// Whether `hay` ends with `suffix`.
pub open spec fn has_suffix(hay: Seq<char>, suffix: Seq<char>) -> bool {
    occurs_at(hay, suffix, hay.len() - suffix.len())
}

/// Tests whether `needle` occurs in `hay` at position `at`.
pub fn chars_occur_at(hay: &Vec<char>, needle: &Vec<char>, at: usize) -> (r: bool)
    ensures
        r == occurs_at(hay@, needle@, at as int),
{
    if needle.len() > hay.len() || at > hay.len() - needle.len() {
        return false;
    }
    let mut k: usize = 0;
    while k < needle.len()
        invariant
            k <= needle.len(),
            at + needle.len() <= hay.len(),
            forall|j: int| 0 <= j < k ==> hay@[at + j] == needle@[j],
        decreases needle.len() - k,
    {
        if hay[at + k] != needle[k] {
            assert(hay@.subrange(at as int, at + needle.len())[k as int] != needle@[k as int]);
            return false;
        }
        k = k + 1;
    }
    assert(hay@.subrange(at as int, at + needle.len()) =~= needle@);
    true
}

/// The first position at which `needle` occurs in `hay`, if there is one.
pub fn chars_find(hay: &Vec<char>, needle: &Vec<char>) -> (r: Option<usize>)
    ensures
        match r {
            Some(at) => occurs_at(hay@, needle@, at as int) && forall|j: int|
                0 <= j < at ==> !occurs_at(hay@, needle@, j),
            None => !has_substring(hay@, needle@),
        },
{
    if needle.len() > hay.len() {
        return None;
    }
    let last: usize = hay.len() - needle.len();
    let mut at: usize = 0;
    while at < last
        invariant
            at <= last,
            last == hay.len() - needle.len(),
            needle.len() <= hay.len(),
            forall|j: int| 0 <= j < at ==> !occurs_at(hay@, needle@, j),
        decreases last - at,
    {
        if chars_occur_at(hay, needle, at) {
            return Some(at);
        }
        at = at + 1;
    }
    if chars_occur_at(hay, needle, last) {
        Some(last)
    } else {
        None
    }
}

/// Whether `needle` occurs somewhere in `hay`.
pub fn str_contains(hay: &str, needle: &str) -> (r: bool)
    ensures
        r == has_substring(hay@, needle@),
{
    let h = to_chars(hay);
    let n = to_chars(needle);
    chars_find(&h, &n).is_some()
}

/// Whether `hay` begins with `prefix`.
pub fn str_starts_with(hay: &str, prefix: &str) -> (r: bool)
    ensures
        r == has_prefix(hay@, prefix@),
{
    let h = to_chars(hay);
    let p = to_chars(prefix);
    chars_occur_at(&h, &p, 0)
}

/// Whether `hay` ends with `suffix`.
pub fn str_ends_with(hay: &str, suffix: &str) -> (r: bool)
    ensures
        r == has_suffix(hay@, suffix@),
{
    let h = to_chars(hay);
    let s = to_chars(suffix);
    if s.len() > h.len() {
        return false;
    }
    chars_occur_at(&h, &s, h.len() - s.len())
}

/// The characters of `chars` from position `from` up to position `to`.
pub fn chars_slice(chars: &Vec<char>, from: usize, to: usize) -> (out: Vec<char>)
    requires
        from <= to <= chars.len(),
    ensures
        out@ == chars@.subrange(from as int, to as int),
{
    let mut out: Vec<char> = Vec::new();
    let mut i: usize = from;
    while i < to
        invariant
            from <= i <= to,
            to <= chars.len(),
            out@ == chars@.subrange(from as int, i as int),
        decreases to - i,
    {
        out.push(chars[i]);
        assert(chars@.subrange(from as int, i + 1) =~= chars@.subrange(from as int, i as int).push(
            chars@[i as int],
        ));
        i = i + 1;
    }
    out
}

/// The pieces of `s` between occurrences of `sep`. A text without `sep` is one
/// piece; `n` occurrences give `n + 1` pieces, some of which may be empty.
pub open spec fn split(s: Seq<char>, sep: char) -> Seq<Seq<char>>
    decreases s.len(),
{
    if s.len() == 0 {
        seq![Seq::<char>::empty()]
    } else {
        let before = split(s.drop_last(), sep);
        if s.last() == sep {
            before.push(Seq::<char>::empty())
        } else {
            before.drop_last().push(before.last().push(s.last()))
        }
    }
}

/// The views of a list of strings.
pub open spec fn views(v: Seq<String>) -> Seq<Seq<char>> {
    v.map_values(|s: String| s@)
}

/// Splits `s` at every occurrence of `sep`.
pub fn split_on(s: &str, sep: char) -> (out: Vec<String>)
    ensures
        views(out@) == split(s@, sep),
        out.len() >= 1,
{
    let chars = to_chars(s);
    let mut out: Vec<String> = Vec::new();
    let mut piece = String::new();
    let mut i: usize = 0;
    while i < chars.len()
        invariant
            i <= chars.len(),
            chars@ == s@,
            views(out@).push(piece@) == split(s@.take(i as int), sep),
        decreases chars.len() - i,
    {
        let c = chars[i];
        proof {
            let t = s@.take(i + 1);
            assert(t.drop_last() =~= s@.take(i as int));
            assert(t.last() == c);
            let before = split(t.drop_last(), sep);
            assert(before.last() == piece@);
            assert(before.drop_last() =~= views(out@));
        }
        if c == sep {
            let ghost old_out = out@;
            out.push(piece);
            piece = String::new();
            assert(views(out@) =~= views(old_out).push(out@.last()@));
        } else {
            push_char(&mut piece, c);
        }
        i = i + 1;
    }
    assert(s@.take(chars.len() as int) =~= s@);
    let ghost old_out = out@;
    out.push(piece);
    assert(views(out@) =~= views(old_out).push(out@.last()@));
    out
}

/// The pieces joined, with `sep` between neighbours.
pub open spec fn join(pieces: Seq<Seq<char>>, sep: Seq<char>) -> Seq<char>
    decreases pieces.len(),
{
    if pieces.len() == 0 {
        Seq::<char>::empty()
    } else if pieces.len() == 1 {
        pieces[0]
    } else {
        join(pieces.drop_last(), sep) + sep + pieces.last()
    }
}

/// Joins the strings, with `sep` between neighbours.
pub fn join_strings(pieces: &Vec<String>, sep: &str) -> (out: String)
    ensures
        out@ == join(views(pieces@), sep@),
{
    let mut out = String::new();
    let mut i: usize = 0;
    while i < pieces.len()
        invariant
            i <= pieces.len(),
            out@ == join(views(pieces@).take(i as int), sep@),
        decreases pieces.len() - i,
    {
        proof {
            let t = views(pieces@).take(i + 1);
            assert(t.drop_last() =~= views(pieces@).take(i as int));
            assert(t.last() == pieces@[i as int]@);
        }
        if i > 0 {
            out.append(sep);
        }
        out.append(pieces[i].as_str());
        assert(out@ =~= join(views(pieces@).take(i + 1), sep@));
        i = i + 1;
    }
    assert(views(pieces@).take(pieces.len() as int) =~= views(pieces@));
    out
}

/// Whether `a` comes strictly before `b` when texts are ordered character by
/// character, a proper prefix coming first. This is the order of `str`.
pub open spec fn text_lt(a: Seq<char>, b: Seq<char>) -> bool
    decreases a.len(),
{
    if b.len() == 0 {
        false
    } else if a.len() == 0 {
        true
    } else if a[0] != b[0] {
        (a[0] as u32) < (b[0] as u32)
    } else {
        text_lt(a.drop_first(), b.drop_first())
    }
}

/// How one value stands to another in a total order.
#[derive(Clone, Copy, Debug, PartialEq, Eq, Structural)]
pub enum Order {
    Less,
    Equal,
    Greater,
}

/// The order of two texts.
pub open spec fn text_order(a: Seq<char>, b: Seq<char>) -> Order {
    if a == b {
        Order::Equal
    } else if text_lt(a, b) {
        Order::Less
    } else {
        Order::Greater
    }
}

proof fn lemma_text_lt_from(a: Seq<char>, b: Seq<char>, k: int)
    requires
        0 <= k <= a.len(),
        k <= b.len(),
        a.take(k) == b.take(k),
    ensures
        text_lt(a, b) == text_lt(a.skip(k), b.skip(k)),
        (a == b) == (a.skip(k) == b.skip(k)),
    decreases k,
{
    if k == 0 {
        assert(a.skip(0) =~= a);
        assert(b.skip(0) =~= b);
    } else {
        assert(a.take(k - 1) =~= a.take(k).take(k - 1));
        assert(b.take(k - 1) =~= b.take(k).take(k - 1));
        lemma_text_lt_from(a, b, k - 1);
        let a1 = a.skip(k - 1);
        let b1 = b.skip(k - 1);
        assert(a1[0] == a.take(k)[k - 1]);
        assert(b1[0] == b.take(k)[k - 1]);
        assert(a1.drop_first() =~= a.skip(k));
        assert(b1.drop_first() =~= b.skip(k));
        if a.skip(k) == b.skip(k) {
            assert(a1.len() == b1.len());
            assert forall|i: int| 0 <= i < a1.len() implies a1[i] == b1[i] by {
                if i > 0 {
                    assert(a1[i] == a1.drop_first()[i - 1]);
                    assert(b1[i] == b1.drop_first()[i - 1]);
                }
            }
            assert(a1 =~= b1);
        }
    }
}

/// Compares two lists of characters in the order of `str`.
pub fn chars_compare(a: &Vec<char>, b: &Vec<char>) -> (r: Order)
    ensures
        r == text_order(a@, b@),
{
    let mut k: usize = 0;
    while k < a.len() && k < b.len()
        invariant
            k <= a.len(),
            k <= b.len(),
            a@.take(k as int) == b@.take(k as int),
        decreases a.len() - k,
    {
        let x = a[k];
        let y = b[k];
        if x != y {
            proof {
                lemma_text_lt_from(a@, b@, k as int);
                assert(a@.skip(k as int)[0] == x);
                assert(b@.skip(k as int)[0] == y);
            }
            if (x as u32) < (y as u32) {
                return Order::Less;
            } else {
                return Order::Greater;
            }
        }
        assert(a@.take(k + 1) =~= a@.take(k as int).push(x));
        assert(b@.take(k + 1) =~= b@.take(k as int).push(y));
        k = k + 1;
    }
    proof {
        lemma_text_lt_from(a@, b@, k as int);
        if k == a.len() && k == b.len() {
            assert(a@.skip(k as int) =~= b@.skip(k as int));
        }
    }
    if k == a.len() && k == b.len() {
        Order::Equal
    } else if k == a.len() {
        Order::Less
    } else {
        Order::Greater
    }
}

/// Compares two strings in the order of `str`.
pub fn str_compare(a: &str, b: &str) -> (r: Order)
    ensures
        r == text_order(a@, b@),
{
    let x = to_chars(a);
    let y = to_chars(b);
    chars_compare(&x, &y)
}

/// Whether two strings hold the same characters.
pub fn str_eq(a: &str, b: &str) -> (r: bool)
    ensures
        r == (a@ == b@),
{
    let x = a.as_bytes();
    let y = b.as_bytes();
    proof {
        vstd::utf8::encode_utf8_decode_utf8(a@);
        vstd::utf8::encode_utf8_decode_utf8(b@);
    }
    if x.len() != y.len() {
        return false;
    }
    let mut i: usize = 0;
    while i < x.len()
        invariant
            i <= x.len(),
            x.len() == y.len(),
            x@ == vstd::utf8::encode_utf8(a@),
            y@ == vstd::utf8::encode_utf8(b@),
            forall|j: int| 0 <= j < i ==> x@[j] == y@[j],
        decreases x.len() - i,
    {
        if x[i] != y[i] {
            return false;
        }
        i = i + 1;
    }
    assert(x@ =~= y@);
    true
}

/// No text comes before itself.
pub proof fn lemma_text_lt_irreflexive(a: Seq<char>)
    ensures
        !text_lt(a, a),
    decreases a.len(),
{
    if a.len() > 0 {
        lemma_text_lt_irreflexive(a.drop_first());
    }
}

/// Of two different texts one comes before the other.
pub proof fn lemma_text_lt_total(a: Seq<char>, b: Seq<char>)
    ensures
        a == b || text_lt(a, b) || text_lt(b, a),
        !(text_lt(a, b) && text_lt(b, a)),
    decreases a.len(),
{
    if a.len() > 0 && b.len() > 0 {
        if a[0] == b[0] {
            lemma_text_lt_total(a.drop_first(), b.drop_first());
            if a.drop_first() == b.drop_first() {
                assert(a =~= seq![a[0]] + a.drop_first());
                assert(b =~= seq![b[0]] + b.drop_first());
            }
        } else {
            let x = a[0] as u32;
            let y = b[0] as u32;
            if x == y {
                vstd::utf8::char_u32_cast(a[0], x);
                vstd::utf8::char_u32_cast(b[0], y);
            }
        }
    } else if a.len() == 0 && b.len() == 0 {
        assert(a =~= b);
    }
}

/// The order of texts carries over: what comes before a text comes before
/// everything behind that text.
pub proof fn lemma_text_lt_transitive(a: Seq<char>, b: Seq<char>, c: Seq<char>)
    requires
        text_lt(a, b),
        text_lt(b, c),
    ensures
        text_lt(a, c),
    decreases a.len(),
{
    if a.len() > 0 {
        if a[0] == b[0] && b[0] == c[0] {
            lemma_text_lt_transitive(a.drop_first(), b.drop_first(), c.drop_first());
        }
    }
}

/// An order of positions with one more position put in: `next` goes behind
/// the last position whose text does not come after its own.
pub open spec fn with_position(keys: Seq<Seq<char>>, order: Seq<int>, next: int) -> Seq<int>
    decreases order.len(),
{
    if order.len() == 0 {
        seq![next]
    } else if text_lt(keys[next], keys[order.last()]) {
        with_position(keys, order.drop_last(), next).push(order.last())
    } else {
        order.push(next)
    }
}

/// The first `upto` positions of `keys` in the ascending order of their
/// texts. Positions with the same text keep their order.
pub open spec fn sorted_order(keys: Seq<Seq<char>>, upto: int) -> Seq<int>
    decreases upto,
{
    if upto <= 0 {
        Seq::<int>::empty()
    } else {
        with_position(keys, sorted_order(keys, upto - 1), upto - 1)
    }
}

/// The positions of an order as mathematical integers.
pub open spec fn positions(order: Seq<usize>) -> Seq<int> {
    order.map_values(|i: usize| i as int)
}

proof fn lemma_with_position_at(keys: Seq<Seq<char>>, order: Seq<int>, next: int, at: int)
    requires
        0 <= at <= order.len(),
        forall|j: int| at <= j < order.len() ==> text_lt(keys[next], keys[order[j]]),
        at > 0 ==> !text_lt(keys[next], keys[order[at - 1]]),
    ensures
        with_position(keys, order, next) == order.insert(at, next),
    decreases order.len(),
{
    if order.len() == 0 {
        assert(order.insert(0, next) =~= seq![next]);
    } else if at == order.len() {
        assert(order.insert(at, next) =~= order.push(next));
    } else {
        lemma_with_position_at(keys, order.drop_last(), next, at);
        assert(order.drop_last().insert(at, next).push(order.last()) =~= order.insert(at, next));
    }
}

/// The positions of `keys` in the ascending order of the texts. Positions
/// with the same text keep their order.
pub fn sort_order(keys: &Vec<String>) -> (order: Vec<usize>)
    ensures
        positions(order@) == sorted_order(views(keys@), keys@.len() as int),
        order@.len() == keys@.len(),
        forall|k: int| 0 <= k < order@.len() ==> order@[k] < keys@.len(),
{
    let ghost all = views(keys@);
    let mut order: Vec<usize> = Vec::new();
    let mut i: usize = 0;
    assert(positions(order@) =~= sorted_order(all, 0));
    while i < keys.len()
        invariant
            i <= keys@.len(),
            all == views(keys@),
            order@.len() == i,
            forall|k: int| 0 <= k < order@.len() ==> order@[k] < i,
            positions(order@) == sorted_order(all, i as int),
        decreases keys@.len() - i,
    {
        let mut at: usize = order.len();
        let mut stop = false;
        while at > 0 && !stop
            invariant
                at <= order@.len(),
                i < keys@.len(),
                all == views(keys@),
                forall|k: int| 0 <= k < order@.len() ==> order@[k] < i,
                forall|j: int| at <= j < order@.len() ==> text_lt(all[i as int], all[order@[j] as int]),
                stop ==> at > 0 && !text_lt(all[i as int], all[order@[at - 1] as int]),
            decreases
                    (if stop {
                        0int
                    } else {
                        at + 1
                    }),
        {
            proof {
                lemma_text_lt_irreflexive(all[i as int]);
            }
            match str_compare(keys[i].as_str(), keys[order[at - 1]].as_str()) {
                Order::Less => {
                    at = at - 1;
                },
                _ => {
                    stop = true;
                },
            }
        }
        proof {
            let sofar = positions(order@);
            assert forall|j: int| at <= j < sofar.len() implies text_lt(
                all[i as int],
                all[sofar[j]],
            ) by {
                assert(sofar[j] == order@[j] as int);
            }
            if at > 0 {
                assert(sofar[at - 1] == order@[at - 1] as int);
            }
            lemma_with_position_at(all, sofar, i as int, at as int);
            assert(positions(order@.insert(at as int, i)) =~= sofar.insert(at as int, i as int));
        }
        order.insert(at, i);
        i = i + 1;
    }
    order
}

/// The texts at the given positions.
pub open spec fn arranged(keys: Seq<Seq<char>>, order: Seq<int>) -> Seq<Seq<char>> {
    Seq::new(order.len(), |k: int| keys[order[k]])
}

/// The texts in ascending order. Equal texts keep their order.
pub open spec fn sorted_texts(keys: Seq<Seq<char>>) -> Seq<Seq<char>> {
    arranged(keys, sorted_order(keys, keys.len() as int))
}

/// Whether no text comes before one that stands in front of it.
pub open spec fn in_order(keys: Seq<Seq<char>>) -> bool {
    forall|i: int, j: int| 0 <= i < j < keys.len() ==> !text_lt(#[trigger] keys[j], #[trigger] keys[i])
}

/// Whether every position of `order` is a position of a list of `count`.
pub open spec fn within(order: Seq<int>, count: int) -> bool {
    forall|k: int| 0 <= k < order.len() ==> 0 <= #[trigger] order[k] < count
}

proof fn lemma_not_before(a: Seq<char>, b: Seq<char>, c: Seq<char>)
    requires
        !text_lt(b, a),
        !text_lt(c, b),
    ensures
        !text_lt(c, a),
{
    if text_lt(c, a) {
        lemma_text_lt_total(a, b);
        if text_lt(a, b) {
            lemma_text_lt_transitive(c, a, b);
        }
    }
}

proof fn lemma_with_position_in_order(keys: Seq<Seq<char>>, order: Seq<int>, next: int)
    requires
        within(order, keys.len() as int),
        0 <= next < keys.len(),
        in_order(arranged(keys, order)),
    ensures
        with_position(keys, order, next).len() == order.len() + 1,
        forall|k: int|
            0 <= k < order.len() + 1 ==> (#[trigger] with_position(keys, order, next)[k]) == next
                || order.contains(with_position(keys, order, next)[k]),
        within(with_position(keys, order, next), keys.len() as int),
        in_order(arranged(keys, with_position(keys, order, next))),
    decreases order.len(),
{
    let r = with_position(keys, order, next);
    let texts = arranged(keys, order);
    if order.len() == 0 {
    } else if text_lt(keys[next], keys[order.last()]) {
        let front = order.drop_last();
        let inner = with_position(keys, front, next);
        assert forall|i: int, j: int| 0 <= i < j < front.len() implies !text_lt(
            #[trigger] arranged(keys, front)[j],
            #[trigger] arranged(keys, front)[i],
        ) by {
            assert(arranged(keys, front)[j] == texts[j]);
            assert(arranged(keys, front)[i] == texts[i]);
        }
        lemma_with_position_in_order(keys, front, next);
        assert(r == inner.push(order.last()));
        assert forall|k: int| 0 <= k < order.len() + 1 implies (#[trigger] r[k]) == next
            || order.contains(r[k]) by {
            if k < inner.len() {
                assert(r[k] == inner[k]);
                if inner[k] != next {
                    let m = choose|m: int| 0 <= m < front.len() && front[m] == inner[k];
                    assert(order[m] == inner[k]);
                }
            } else {
                assert(order[order.len() - 1] == r[k]);
            }
        }
        assert forall|i: int, j: int| 0 <= i < j < r.len() implies !text_lt(
            #[trigger] arranged(keys, r)[j],
            #[trigger] arranged(keys, r)[i],
        ) by {
            if j < inner.len() {
                assert(arranged(keys, r)[j] == arranged(keys, inner)[j]);
                assert(arranged(keys, r)[i] == arranged(keys, inner)[i]);
            } else {
                assert(arranged(keys, r)[j] == keys[order.last()]);
                assert(r[i] == inner[i]);
                if inner[i] == next {
                    lemma_text_lt_total(keys[next], keys[order.last()]);
                } else {
                    let m = choose|m: int| 0 <= m < front.len() && front[m] == inner[i];
                    assert(texts[m] == keys[inner[i]]);
                    assert(texts[order.len() - 1] == keys[order.last()]);
                }
            }
        }
    } else {
        assert(r == order.push(next));
        assert forall|k: int| 0 <= k < order.len() + 1 implies (#[trigger] r[k]) == next
            || order.contains(r[k]) by {
            if k < order.len() {
                assert(order[k] == r[k]);
            }
        }
        assert forall|i: int, j: int| 0 <= i < j < r.len() implies !text_lt(
            #[trigger] arranged(keys, r)[j],
            #[trigger] arranged(keys, r)[i],
        ) by {
            if j < order.len() {
                assert(arranged(keys, r)[j] == texts[j]);
                assert(arranged(keys, r)[i] == texts[i]);
            } else {
                assert(arranged(keys, r)[j] == keys[next]);
                assert(arranged(keys, r)[i] == texts[i]);
                assert(texts[order.len() - 1] == keys[order.last()]);
                if i < order.len() - 1 {
                    lemma_not_before(texts[i], keys[order.last()], keys[next]);
                }
            }
        }
    }
}

/// The order of the first `upto` texts names positions of the list, as
/// many as were sorted, and the texts at these positions are in order.
pub proof fn lemma_sorted_order_in_order(keys: Seq<Seq<char>>, upto: int)
    requires
        0 <= upto <= keys.len(),
    ensures
        sorted_order(keys, upto).len() == upto,
        within(sorted_order(keys, upto), keys.len() as int),
        in_order(arranged(keys, sorted_order(keys, upto))),
    decreases upto,
{
    if upto > 0 {
        lemma_sorted_order_in_order(keys, upto - 1);
        lemma_with_position_in_order(keys, sorted_order(keys, upto - 1), upto - 1);
    }
}

proof fn lemma_sorted_order_of_ordered(keys: Seq<Seq<char>>, upto: int)
    requires
        0 <= upto <= keys.len(),
        in_order(keys),
    ensures
        sorted_order(keys, upto) == Seq::new(upto as nat, |i: int| i),
    decreases upto,
{
    if upto > 0 {
        lemma_sorted_order_of_ordered(keys, upto - 1);
        let before = Seq::new((upto - 1) as nat, |i: int| i);
        if upto > 1 {
            assert(before.last() == upto - 2);
            assert(!text_lt(keys[upto - 1], keys[upto - 2]));
        }
        assert(with_position(keys, before, upto - 1) =~= Seq::new(upto as nat, |i: int| i));
    }
}

/// Sorted texts are in order, and as many as there were.
pub proof fn lemma_sorted_texts_in_order(keys: Seq<Seq<char>>)
    ensures
        sorted_texts(keys).len() == keys.len(),
        in_order(sorted_texts(keys)),
{
    lemma_sorted_order_in_order(keys, keys.len() as int);
}

/// Texts that are in order stay as they are when they are sorted.
pub proof fn lemma_sorting_keeps_order(keys: Seq<Seq<char>>)
    requires
        in_order(keys),
    ensures
        sorted_order(keys, keys.len() as int) == Seq::new(keys.len(), |i: int| i),
        sorted_texts(keys) == keys,
{
    lemma_sorted_order_of_ordered(keys, keys.len() as int);
    assert(sorted_texts(keys) =~= keys);
}

/// To sort what is sorted changes nothing.
pub proof fn lemma_sorting_twice(keys: Seq<Seq<char>>)
    ensures
        sorted_texts(sorted_texts(keys)) == sorted_texts(keys),
{
    lemma_sorted_texts_in_order(keys);
    lemma_sorting_keeps_order(sorted_texts(keys));
}

/// The texts in ascending order. Equal texts keep their order.
pub fn sort_strings(texts: &Vec<String>) -> (out: Vec<String>)
    ensures
        views(out@) == sorted_texts(views(texts@)),
{
    let order = sort_order(texts);
    let mut out: Vec<String> = Vec::new();
    let mut k: usize = 0;
    while k < order.len()
        invariant
            k <= order@.len(),
            order@.len() == texts@.len(),
            forall|j: int| 0 <= j < order@.len() ==> order@[j] < texts@.len(),
            out@.len() == k,
            forall|j: int| 0 <= j < k ==> (#[trigger] out@[j])@ == texts@[order@[j] as int]@,
        decreases order@.len() - k,
    {
        out.push(texts[order[k]].clone());
        k = k + 1;
    }
    proof {
        assert forall|j: int| 0 <= j < out@.len() implies views(out@)[j] == sorted_texts(
            views(texts@),
        )[j] by {
            assert(positions(order@)[j] == order@[j] as int);
        }
        assert(views(out@) =~= sorted_texts(views(texts@)));
    }
    out
}

/// What the standard library makes of a text in lower case.
pub uninterp spec fn lowercased(s: Seq<char>) -> Seq<char>;

/// Writes a text in lower case.
///
/// Trusted: `str::to_lowercase` of the standard library, which maps each
/// character to its lower case by the rules of Unicode.
#[verifier::external_body]
pub(crate) fn to_lowercase(s: &str) -> (r: String)
    ensures
        r@ == lowercased(s@),
{
    s.to_lowercase()
}

/// What the standard library writes for a text in debug notation: the
/// text between quotes, with escapes for what cannot stand there.
pub uninterp spec fn debug_text(s: Seq<char>) -> Seq<char>;

/// Writes a text in debug notation.
///
/// Trusted: the `Debug` implementation of `str` of the standard library,
/// through `format!`.
#[verifier::external_body]
pub(crate) fn format_debug_text(s: &str) -> (r: String)
    ensures
        r@ == debug_text(s@),
{
    format!("{:?}", s)
}

/// The texts of a list, each in debug notation.
pub open spec fn debug_texts(names: Seq<Seq<char>>) -> Seq<Seq<char>> {
    names.map_values(|n: Seq<char>| debug_text(n))
}

/// A list of texts in debug notation: between square brackets the texts,
/// each in debug notation, with a comma and a space between neighbours.
#[verifier::opaque]
pub open spec fn debug_list(names: Seq<Seq<char>>) -> Seq<char> {
    "["@ + join(debug_texts(names), ", "@) + "]"@
}

/// Writes a list of texts in debug notation.
pub fn format_debug_list(names: &Vec<String>) -> (r: String)
    ensures
        r@ == debug_list(views(names@)),
{
    let mut items: Vec<String> = Vec::new();
    let mut i: usize = 0;
    while i < names.len()
        invariant
            i <= names@.len(),
            items@.len() == i,
            forall|j: int| 0 <= j < i ==> (#[trigger] items@[j])@ == debug_text(names@[j]@),
        decreases names@.len() - i,
    {
        items.push(format_debug_text(names[i].as_str()));
        i = i + 1;
    }
    assert(views(items@) =~= debug_texts(views(names@)));
    reveal(debug_list);
    let mut out = String::from_str("[");
    out.append(join_strings(&items, ", ").as_str());
    out.append("]");
    out
}

/// Whether the standard library counts a character as a letter or a number.
pub uninterp spec fn is_alphanumeric(c: char) -> bool;

/// Tests whether a character is a letter or a number.
///
/// Trusted: `char::is_alphanumeric` of the standard library.
#[verifier::external_body]
pub(crate) fn char_is_alphanumeric(c: char) -> (r: bool)
    ensures
        r == is_alphanumeric(c),
{
    c.is_alphanumeric()
}

/// Whether a character is white space: the space, the controls from tab to
/// carriage return, the next-line control, and the spaces and separators
/// beyond the ASCII range.
pub open spec fn is_space(c: char) -> bool {
    let n = c as u32;
    ||| 0x09 <= n <= 0x0d
    ||| n == 0x20
    ||| n == 0x85
    ||| n == 0xa0
    ||| n == 0x1680
    ||| 0x2000 <= n <= 0x200a
    ||| n == 0x2028
    ||| n == 0x2029
    ||| n == 0x202f
    ||| n == 0x205f
    ||| n == 0x3000
}

/// Whether a character is white space.
pub fn char_is_space(c: char) -> (r: bool)
    ensures
        r == is_space(c),
{
    let n: u32 = c as u32;
    (0x09 <= n && n <= 0x0d) || n == 0x20 || n == 0x85 || n == 0xa0 || n == 0x1680 || (0x2000 <= n
        && n <= 0x200a) || n == 0x2028 || n == 0x2029 || n == 0x202f || n == 0x205f || n == 0x3000
}

/// A text without the white space at its end.
pub open spec fn trimmed_end(s: Seq<char>) -> Seq<char>
    decreases s.len(),
{
    if s.len() > 0 && is_space(s.last()) {
        trimmed_end(s.drop_last())
    } else {
        s
    }
}

/// A text without the white space at its beginning.
pub open spec fn trimmed_start(s: Seq<char>) -> Seq<char>
    decreases s.len(),
{
    if s.len() > 0 && is_space(s[0]) {
        trimmed_start(s.drop_first())
    } else {
        s
    }
}

/// A text without the white space at its beginning and at its end.
pub open spec fn trimmed(s: Seq<char>) -> Seq<char> {
    trimmed_end(trimmed_start(s))
}

/// The text without the white space at its beginning and at its end.
pub fn trim(s: &str) -> (out: String)
    ensures
        out@ == trimmed(s@),
{
    let chars = to_chars(s);
    let mut start: usize = 0;
    assert(s@.skip(0) =~= s@);
    while start < chars.len() && char_is_space(chars[start])
        invariant
            start <= chars@.len(),
            chars@ == s@,
            trimmed_start(s@) == trimmed_start(s@.skip(start as int)),
        decreases chars@.len() - start,
    {
        assert(s@.skip(start as int).drop_first() =~= s@.skip(start + 1));
        start = start + 1;
    }
    let ghost rest = s@.skip(start as int);
    assert(trimmed_start(s@) == rest);
    let mut end: usize = chars.len();
    assert(rest.take(rest.len() as int) =~= rest);
    while end > start && char_is_space(chars[end - 1])
        invariant
            start <= end <= chars@.len(),
            chars@ == s@,
            rest == s@.skip(start as int),
            trimmed_end(rest) == trimmed_end(rest.take(end - start)),
        decreases end,
    {
        assert(rest.take(end - start).drop_last() =~= rest.take(end - start - 1));
        assert(rest.take(end - start).last() == chars@[end - 1]);
        end = end - 1;
    }
    proof {
        let kept = rest.take(end - start);
        if end > start {
            assert(kept.last() == chars@[end - 1]);
        }
        assert(trimmed_end(kept) == kept);
        assert(kept =~= s@.subrange(start as int, end as int));
    }
    from_chars(&chars_slice(&chars, start, end))
}

/// A line without the carriage return at its end.
pub open spec fn without_return(s: Seq<char>) -> Seq<char> {
    if s.len() > 0 && s.last() == '\r' {
        s.drop_last()
    } else {
        s
    }
}

/// The lines of a text. A line ends at a line feed; a carriage return in
/// front of the line feed belongs to the line ending. What follows the last
/// line feed is a line if it is not empty.
pub open spec fn lines(s: Seq<char>) -> Seq<Seq<char>> {
    let pieces = split(s, '\n');
    let ended = Seq::new((pieces.len() - 1) as nat, |i: int| without_return(pieces[i]));
    if pieces.last().len() > 0 {
        ended.push(pieces.last())
    } else {
        ended
    }
}

/// The lines of a text.
pub fn text_lines(s: &str) -> (out: Vec<String>)
    ensures
        views(out@) == lines(s@),
{
    let mut pieces = split_on(s, '\n');
    let ghost all = views(pieces@);
    let last = pieces.pop().unwrap();
    let mut out: Vec<String> = Vec::new();
    let mut i: usize = 0;
    while i < pieces.len()
        invariant
            i <= pieces@.len(),
            pieces@.len() == all.len() - 1,
            forall|j: int| 0 <= j < pieces@.len() ==> pieces@[j]@ == all[j],
            out@.len() == i,
            forall|j: int| 0 <= j < i ==> out@[j]@ == without_return(all[j]),
        decreases pieces@.len() - i,
    {
        let chars = to_chars(pieces[i].as_str());
        let n = chars.len();
        if n > 0 && chars[n - 1] == '\r' {
            let line = from_chars(&chars_slice(&chars, 0, n - 1));
            assert(line@ =~= all[i as int].drop_last());
            out.push(line);
        } else {
            out.push(pieces[i].clone());
        }
        i = i + 1;
    }
    let ghost ended = Seq::new((all.len() - 1) as nat, |i: int| without_return(all[i]));
    assert(views(out@) =~= ended);
    assert(last@ == all.last());
    if last.as_str().unicode_len() > 0 {
        out.push(last);
        assert(views(out@) =~= ended.push(all.last()));
    }
    out
}

/// What follows `prefix` in a text that begins with it.
pub fn strip_prefix(s: &str, prefix: &str) -> (r: Option<String>)
    ensures
        match r {
            Some(rest) => has_prefix(s@, prefix@) && rest@ == s@.skip(prefix@.len() as int),
            None => !has_prefix(s@, prefix@),
        },
{
    let chars = to_chars(s);
    let p = to_chars(prefix);
    if chars_occur_at(&chars, &p, 0) {
        let rest = from_chars(&chars_slice(&chars, p.len(), chars.len()));
        assert(rest@ =~= s@.skip(prefix@.len() as int));
        Some(rest)
    } else {
        None
    }
}

/// The words of a text: what stands between stretches of white space.
pub open spec fn words(s: Seq<char>) -> Seq<Seq<char>> {
    words_from(s, Seq::<Seq<char>>::empty(), Seq::<char>::empty())
}

/// The words of a text that follows the words `done` and the beginning
/// `word` of a word.
pub open spec fn words_from(s: Seq<char>, done: Seq<Seq<char>>, word: Seq<char>) -> Seq<Seq<char>>
    decreases s.len(),
{
    if s.len() == 0 {
        if word.len() > 0 {
            done.push(word)
        } else {
            done
        }
    } else if is_space(s[0]) {
        if word.len() > 0 {
            words_from(s.drop_first(), done.push(word), Seq::<char>::empty())
        } else {
            words_from(s.drop_first(), done, word)
        }
    } else {
        words_from(s.drop_first(), done, word.push(s[0]))
    }
}

/// The words of a text.
pub fn split_words(s: &str) -> (out: Vec<String>)
    ensures
        views(out@) == words(s@),
{
    let chars = to_chars(s);
    let mut out: Vec<String> = Vec::new();
    let mut word = String::new();
    let mut i: usize = 0;
    assert(s@.skip(0) =~= s@);
    assert(views(out@) =~= Seq::<Seq<char>>::empty());
    while i < chars.len()
        invariant
            i <= chars@.len(),
            chars@ == s@,
            words(s@) == words_from(s@.skip(i as int), views(out@), word@),
        decreases chars@.len() - i,
    {
        let c = chars[i];
        proof {
            let rest = s@.skip(i as int);
            assert(rest[0] == c);
            assert(rest.drop_first() =~= s@.skip(i + 1));
        }
        if char_is_space(c) {
            if word.as_str().unicode_len() > 0 {
                let ghost before = out@;
                out.push(word);
                assert(views(out@) =~= views(before).push(word@));
                word = String::new();
            }
        } else {
            push_char(&mut word, c);
        }
        i = i + 1;
    }
    assert(s@.skip(i as int).len() == 0);
    if word.as_str().unicode_len() > 0 {
        let ghost before = out@;
        out.push(word);
        assert(views(out@) =~= views(before).push(word@));
    }
    out
}

} // verus!
