//! Searching and copying byte strings.

use vstd::prelude::*;
use vstd::slice::slice_subrange;

verus! {

/// The two bytes that end a line on the wire: carriage return, line feed.
pub const CRLF: [u8; 2] = [13, 10];

/// `needle` stands in `hay` at index `at`.
pub open spec fn occurs_at(hay: Seq<u8>, needle: Seq<u8>, at: int) -> bool {
    &&& 0 <= at
    &&& at + needle.len() <= hay.len()
    &&& forall|k: int| 0 <= k < needle.len() ==> hay[at + k] == #[trigger] needle[k]
}

/// `at` is the first index at which `needle` stands in `hay`.
pub open spec fn first_at(hay: Seq<u8>, needle: Seq<u8>, at: int) -> bool {
    &&& occurs_at(hay, needle, at)
    &&& forall|j: int| 0 <= j < at ==> !occurs_at(hay, needle, j)
}

/// The first index at which `needle` stands in `hay`, if it stands anywhere.
pub open spec fn find(hay: Seq<u8>, needle: Seq<u8>) -> Option<int> {
    if exists|at: int| first_at(hay, needle, at) {
        Some(choose|at: int| first_at(hay, needle, at))
    } else {
        None
    }
}

/// A first occurrence is the one that `find` names.
pub proof fn lemma_find_first(hay: Seq<u8>, needle: Seq<u8>, at: int)
    requires
        first_at(hay, needle, at),
    ensures
        find(hay, needle) == Some(at),
{
    let c = choose|c: int| first_at(hay, needle, c);
    assert(first_at(hay, needle, c));
    if c < at {
        assert(!occurs_at(hay, needle, c));
    } else if at < c {
        assert(!occurs_at(hay, needle, at));
    }
}

/// Where `needle` stands nowhere, `find` names nothing.
pub proof fn lemma_find_absent(hay: Seq<u8>, needle: Seq<u8>)
    requires
        forall|j: int| 0 <= j ==> !occurs_at(hay, needle, j),
    ensures
        find(hay, needle) is None,
{
    if exists|at: int| first_at(hay, needle, at) {
        let c = choose|c: int| first_at(hay, needle, c);
        assert(occurs_at(hay, needle, c));
    }
}

/// What `find` names is a first occurrence.
pub proof fn lemma_find_is_first(hay: Seq<u8>, needle: Seq<u8>)
    ensures
        find(hay, needle) matches Some(at) ==> first_at(hay, needle, at),
        find(hay, needle) is None ==> forall|j: int| !occurs_at(hay, needle, j),
{
    if find(hay, needle) is None {
        assert forall|j: int| !occurs_at(hay, needle, j) by {
            if occurs_at(hay, needle, j) {
                lemma_some_first(hay, needle, j);
            }
        }
    }
}

/// Below any occurrence there is a first one.
proof fn lemma_some_first(hay: Seq<u8>, needle: Seq<u8>, at: int)
    requires
        occurs_at(hay, needle, at),
    ensures
        exists|c: int| first_at(hay, needle, c),
    decreases at,
{
    if exists|j: int| 0 <= j < at && occurs_at(hay, needle, j) {
        let j = choose|j: int| 0 <= j < at && occurs_at(hay, needle, j);
        lemma_some_first(hay, needle, j);
    } else {
        assert(first_at(hay, needle, at));
    }
}

/// Whether `needle` stands in `hay` at index `at`.
fn matches_at(hay: &[u8], needle: &[u8], at: usize) -> (r: bool)
    requires
        at + needle@.len() <= hay@.len(),
    ensures
        r == occurs_at(hay@, needle@, at as int),
{
    let mut k: usize = 0;
    while k < needle.len()
        invariant
            k <= needle@.len(),
            at + needle.len() <= hay.len(),
            forall|j: int| 0 <= j < k ==> hay@[at + j] == #[trigger] needle@[j],
        decreases needle@.len() - k,
    {
        if hay[at + k] != needle[k] {
            return false;
        }
        k += 1;
    }
    true
}

/// Looks for the first place where `needle` stands in `hay`.
pub fn find_marker(hay: &[u8], needle: &[u8]) -> (r: Option<usize>)
    ensures
        match r {
            Some(at) => find(hay@, needle@) == Some(at as int),
            None => find(hay@, needle@) is None,
        },
{
    if needle.len() > hay.len() {
        proof {
            lemma_find_absent(hay@, needle@);
        }
        return None;
    }
    let last: usize = hay.len() - needle.len();
    let mut at: usize = 0;
    while at < last
        invariant
            at <= last,
            last + needle@.len() == hay@.len(),
            forall|j: int| 0 <= j < at ==> !occurs_at(hay@, needle@, j),
        decreases last - at,
    {
        if matches_at(hay, needle, at) {
            proof {
                lemma_find_first(hay@, needle@, at as int);
            }
            return Some(at);
        }
        at += 1;
    }
    if matches_at(hay, needle, last) {
        proof {
            lemma_find_first(hay@, needle@, last as int);
        }
        return Some(last);
    }
    proof {
        lemma_find_absent(hay@, needle@);
    }
    None
}

/// The first index at which the byte `b` stands in `s`, if it stands anywhere.
pub open spec fn position(s: Seq<u8>, b: u8) -> Option<int> {
    find(s, seq![b])
}

/// A needle of one byte stands wherever that byte does.
pub proof fn lemma_occurs_byte(hay: Seq<u8>, b: u8, at: int)
    ensures
        occurs_at(hay, seq![b], at) <==> (0 <= at < hay.len() && hay[at] == b),
{
    assert(seq![b][0] == b);
}

/// Looks for the first place at or after `from` where the byte `b` stands in
/// `hay`. The index returned counts from the start of `hay`.
pub fn find_byte(hay: &[u8], b: u8, from: usize) -> (r: Option<usize>)
    requires
        from <= hay@.len(),
    ensures
        match r {
            Some(at) => from <= at < hay@.len() && position(hay@.skip(from as int), b) == Some(
                at - from,
            ),
            None => position(hay@.skip(from as int), b) is None,
        },
{
    let ghost rest = hay@.skip(from as int);
    let mut at: usize = from;
    while at < hay.len()
        invariant
            from <= at <= hay@.len(),
            rest == hay@.skip(from as int),
            forall|j: int| 0 <= j < at - from ==> !occurs_at(rest, seq![b], j),
        decreases hay@.len() - at,
    {
        proof {
            lemma_occurs_byte(rest, b, at - from);
        }
        if hay[at] == b {
            proof {
                lemma_find_first(rest, seq![b], at - from);
            }
            return Some(at);
        }
        at += 1;
    }
    proof {
        assert forall|j: int| 0 <= j implies !occurs_at(rest, seq![b], j) by {
            lemma_occurs_byte(rest, b, j);
        }
        lemma_find_absent(rest, seq![b]);
    }
    None
}

/// Whether `s` ends with the bytes of `tail`.
pub open spec fn ends_with(s: Seq<u8>, tail: Seq<u8>) -> bool {
    tail.len() <= s.len() && occurs_at(s, tail, s.len() - tail.len())
}

/// Tests whether `s` ends with the bytes of `tail`.
pub fn has_suffix(s: &[u8], tail: &[u8]) -> (r: bool)
    ensures
        r == ends_with(s@, tail@),
{
    if tail.len() > s.len() {
        return false;
    }
    matches_at(s, tail, s.len() - tail.len())
}

/// Whether `s` begins with the bytes of `head`.
pub open spec fn starts_with(s: Seq<u8>, head: Seq<u8>) -> bool {
    occurs_at(s, head, 0)
}

/// Tests whether `s` begins with the bytes of `head`.
pub fn has_prefix(s: &[u8], head: &[u8]) -> (r: bool)
    ensures
        r == starts_with(s@, head@),
{
    if head.len() > s.len() {
        return false;
    }
    matches_at(s, head, 0)
}

/// Whether `b` is ASCII white space: tab, line feed, vertical tab, form
/// feed, carriage return or space.
pub open spec fn is_space(b: u8) -> bool {
    9 <= b <= 13 || b == 32
}

/// `s` without the white space it begins with.
pub open spec fn trim_start(s: Seq<u8>) -> Seq<u8>
    decreases s.len(),
{
    if s.len() > 0 && is_space(s[0]) {
        trim_start(s.skip(1))
    } else {
        s
    }
}

/// `s` without the white space it ends with.
pub open spec fn trim_end(s: Seq<u8>) -> Seq<u8>
    decreases s.len(),
{
    if s.len() > 0 && is_space(s.last()) {
        trim_end(s.drop_last())
    } else {
        s
    }
}

/// `s` without the white space at either end.
pub open spec fn trimmed(s: Seq<u8>) -> Seq<u8> {
    trim_end(trim_start(s))
}

/// Tests whether `b` is ASCII white space.
pub fn space(b: u8) -> (r: bool)
    ensures
        r == is_space(b),
{
    (9 <= b && b <= 13) || b == 32
}

/// The part of `s` that is left when the white space at either end is
/// taken away.
pub fn trim(s: &[u8]) -> (out: &[u8])
    ensures
        out@ == trimmed(s@),
{
    let mut a: usize = 0;
    assert(s@.skip(0) =~= s@);
    while a < s.len() && space(s[a])
        invariant
            a <= s@.len(),
            trim_start(s@) == trim_start(s@.skip(a as int)),
        decreases s@.len() - a,
    {
        assert(s@.skip(a as int).skip(1) =~= s@.skip(a + 1));
        a += 1;
    }
    assert(s@.skip(a as int) =~= s@.subrange(a as int, s@.len() as int));
    let mut b: usize = s.len();
    while b > a && space(s[b - 1])
        invariant
            a <= b <= s@.len(),
            trim_start(s@) == s@.skip(a as int),
            trimmed(s@) == trim_end(s@.subrange(a as int, b as int)),
        decreases b,
    {
        assert(s@.subrange(a as int, b as int).drop_last() =~= s@.subrange(a as int, b - 1));
        b -= 1;
    }
    slice_subrange(s, a, b)
}

/// Copies the bytes of `src` to the end of `out`.
pub fn append(out: &mut Vec<u8>, src: &[u8])
    ensures
        final(out)@ == old(out)@ + src@,
{
    let mut i: usize = 0;
    while i < src.len()
        invariant
            i <= src@.len(),
            out@ == old(out)@ + src@.take(i as int),
        decreases src@.len() - i,
    {
        out.push(src[i]);
        i += 1;
    }
}

/// A vector that holds the bytes of `s`.
pub fn copy(s: &[u8]) -> (out: Vec<u8>)
    ensures
        out@ == s@,
{
    assert(s@.subrange(0, s@.len() as int) =~= s@);
    copy_range(s, 0, s.len())
}

/// A vector that holds the bytes of `s` from `from` up to `to`.
pub fn copy_range(s: &[u8], from: usize, to: usize) -> (out: Vec<u8>)
    requires
        from <= to <= s@.len(),
    ensures
        out@ == s@.subrange(from as int, to as int),
{
    let mut out: Vec<u8> = Vec::new();
    let mut i: usize = from;
    while i < to
        invariant
            from <= i <= to <= s@.len(),
            out@ == s@.subrange(from as int, i as int),
        decreases to - i,
    {
        out.push(s[i]);
        i += 1;
    }
    out
}

} // verus!
