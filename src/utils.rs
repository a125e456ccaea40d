use vstd::prelude::*;
use vstd::string::StringSliceAdditionalSpecFns;
use vstd::utf8::{
    is_char_boundary, is_continuation_byte, length_of_first_scalar, pop_first_scalar, valid_first_scalar,
    valid_utf8,
};

verus! {

/// `sep` occurs in `s` at byte offset `p`, as whole characters: the match
/// starts and ends on character boundaries.
pub open spec fn occurs_at(s: Seq<u8>, sep: Seq<u8>, p: int) -> bool {
    &&& 0 <= p
    &&& p + sep.len() <= s.len()
    &&& s.subrange(p, p + sep.len()) == sep
    &&& is_char_boundary(s, p)
    &&& is_char_boundary(s, p + sep.len())
}

/// The first offset at or after `from` at which `sep` occurs in `s`.
pub open spec fn find_from(s: Seq<u8>, sep: Seq<u8>, from: int) -> Option<int>
    decreases s.len() + 1 - from,
{
    if from < 0 || from + sep.len() > s.len() {
        None
    } else if occurs_at(s, sep, from) {
        Some(from)
    } else {
        find_from(s, sep, from + 1)
    }
}

/// The offset of the first occurrence of `sep` in `s`, if there is one.
pub open spec fn first_match(s: Seq<u8>, sep: Seq<u8>) -> Option<int> {
    find_from(s, sep, 0)
}

/// Piece `side` of `s` split in two on the first `sep`: side 0 is what comes
/// before it (all of `s` when `sep` does not occur), side 1 what comes after
/// it (nothing when `sep` does not occur).
pub open spec fn piece(s: Seq<u8>, sep: Seq<u8>, side: int) -> Option<Seq<u8>> {
    match first_match(s, sep) {
        Some(p) => if side == 0 {
            Some(s.subrange(0, p))
        } else if side == 1 {
            Some(s.subrange(p + sep.len(), s.len() as int))
        } else {
            None
        },
        None => if side == 0 {
            Some(s)
        } else {
            None
        },
    }
}

/// An empty piece counts as no piece at all.
pub open spec fn non_empty(o: Option<Seq<u8>>) -> Option<Seq<u8>> {
    match o {
        Some(x) => if x.len() > 0 {
            Some(x)
        } else {
            None
        },
        None => None,
    }
}

/// What `truncate` returns, over bytes.
pub open spec fn truncated(s: Seq<u8>, sep: Seq<u8>, side: int) -> Option<Seq<u8>> {
    non_empty(piece(s, sep, side))
}

/// The bytes of an optional string view.
pub open spec fn opt_bytes(o: Option<&str>) -> Option<Seq<u8>> {
    match o {
        Some(x) => Some(x.spec_bytes()),
        None => None,
    }
}

/// `x` is a contiguous part of `s`.
pub open spec fn is_slice_of(x: Seq<u8>, s: Seq<u8>) -> bool {
    exists|i: int, j: int| 0 <= i <= j <= s.len() && x == s.subrange(i, j)
}

pub proof fn lemma_find_from_occurs(s: Seq<u8>, sep: Seq<u8>, from: int)
    ensures
        match find_from(s, sep, from) {
            Some(p) => from <= p && occurs_at(s, sep, p),
            None => true,
        },
    decreases s.len() + 1 - from,
{
    if from < 0 || from + sep.len() > s.len() {
    } else if occurs_at(s, sep, from) {
    } else {
        lemma_find_from_occurs(s, sep, from + 1);
    }
}

pub proof fn lemma_first_match_occurs(s: Seq<u8>, sep: Seq<u8>)
    ensures
        match first_match(s, sep) {
            Some(p) => occurs_at(s, sep, p),
            None => true,
        },
{
    lemma_find_from_occurs(s, sep, 0);
}

/// Every piece is a part of the string that was split.
pub proof fn lemma_truncated_is_slice(s: Seq<u8>, sep: Seq<u8>, side: int)
    ensures
        match truncated(s, sep, side) {
            Some(x) => is_slice_of(x, s) && x.len() > 0,
            None => true,
        },
{
    lemma_first_match_occurs(s, sep);
    match first_match(s, sep) {
        Some(p) => {
            if side == 0 {
                assert(s.subrange(0, p) == s.subrange(0, p));
            } else if side == 1 {
                let q = p + sep.len();
                assert(s.subrange(q, s.len() as int) == s.subrange(q, s.len() as int));
            }
        },
        None => {
            assert(s == s.subrange(0, s.len() as int));
        },
    }
}

proof fn lemma_boundary_at_lead(b: Seq<u8>, i: int)
    requires
        valid_utf8(b),
        0 <= i <= b.len(),
        i == b.len() || !is_continuation_byte(b[i]),
    ensures
        is_char_boundary(b, i),
    decreases b.len(),
{
    if i != 0 {
        assert(valid_first_scalar(b));
        let l = length_of_first_scalar(b);
        assert(l <= i);
        let rest = pop_first_scalar(b);
        if i < b.len() {
            assert(rest[i - l] == b[i]);
        }
        lemma_boundary_at_lead(rest, i - l);
    }
}

proof fn lemma_boundary_after_ascii(b: Seq<u8>, i: int)
    requires
        valid_utf8(b),
        0 <= i < b.len(),
        is_char_boundary(b, i),
        b[i] <= 0x7f,
    ensures
        is_char_boundary(b, i + 1),
    decreases b.len(),
{
    assert(valid_first_scalar(b));
    let l = length_of_first_scalar(b);
    let rest = pop_first_scalar(b);
    assert(valid_utf8(rest));
    if i == 0 {
        assert(l == 1);
        assert(is_char_boundary(rest, 0));
    } else {
        assert(is_char_boundary(rest, i - l));
        assert(0 <= i - l);
        assert(rest[i - l] == b[i]);
        lemma_boundary_after_ascii(rest, i - l);
    }
}

/// `sep` stands in `s` at byte offset `p`, whatever the boundaries.
pub open spec fn bytes_at(s: Seq<u8>, sep: Seq<u8>, p: int) -> bool {
    &&& 0 <= p
    &&& p + sep.len() <= s.len()
    &&& s.subrange(p, p + sep.len()) == sep
}

/// In text that is valid UTF-8, a non-empty separator made of ASCII bytes
/// occurs wherever its bytes stand: the boundary conditions of `occurs_at`
/// then hold by themselves, and `first_match` is the first byte offset at
/// which the separator stands.
pub proof fn lemma_ascii_separator(s: Seq<u8>, sep: Seq<u8>, p: int)
    requires
        valid_utf8(s),
        sep.len() > 0,
        forall|k: int| 0 <= k < sep.len() ==> sep[k] <= 0x7f,
    ensures
        occurs_at(s, sep, p) <==> bytes_at(s, sep, p),
{
    if bytes_at(s, sep, p) {
        let m = sep.len() as int;
        assert(s[p] == s.subrange(p, p + m)[0]);
        lemma_boundary_at_lead(s, p);
        assert(s[p + m - 1] == s.subrange(p, p + m)[m - 1]);
        lemma_boundary_at_lead(s, p + m - 1);
        lemma_boundary_after_ascii(s, p + m - 1);
    }
}

/// Whether `needle` stands in `hay` at offset `at`.
fn bytes_match_at(hay: &[u8], needle: &[u8], at: usize) -> (r: bool)
    requires
        at + needle@.len() <= hay@.len(),
    ensures
        r == (hay@.subrange(at as int, at + needle@.len()) == needle@),
{
    let n = hay.len();
    let m = needle.len();
    let mut j: usize = 0;
    while j < m
        invariant
            j <= m,
            n == hay@.len(),
            m == needle@.len(),
            at + m <= hay@.len(),
            forall|k: int| 0 <= k < j ==> hay@[at + k] == needle@[k],
        decreases m - j,
    {
        if hay[at + j] != needle[j] {
            assert(hay@.subrange(at as int, at + m)[j as int] != needle@[j as int]);
            return false;
        }
        j += 1;
    }
    assert(hay@.subrange(at as int, at + m) =~= needle@);
    true
}

/// Whether `a` and `b` hold the same bytes.
pub fn same_bytes(a: &str, b: &str) -> (r: bool)
    ensures
        r == (a.spec_bytes() == b.spec_bytes()),
{
    let x = a.as_bytes();
    let y = b.as_bytes();
    if x.len() != y.len() {
        return false;
    }
    let r = bytes_match_at(x, y, 0);
    assert(x@.subrange(0, y@.len() as int) =~= x@);
    r
}

/// The byte offset of the first occurrence of `sep` in `s`.
fn find_first(s: &str, sep: &str) -> (r: Option<usize>)
    ensures
        match r {
            Some(p) => first_match(s.spec_bytes(), sep.spec_bytes()) == Some(p as int),
            None => first_match(s.spec_bytes(), sep.spec_bytes()).is_none(),
        },
        s.spec_bytes().len() <= usize::MAX,
{
    let hay = s.as_bytes();
    let needle = sep.as_bytes();
    let n = hay.len();
    let m = needle.len();
    if m > n {
        return None;
    }
    let ghost sb = s.spec_bytes();
    let ghost pb = sep.spec_bytes();
    let last = n - m;
    let mut i: usize = 0;
    loop
        invariant
            sb == s.spec_bytes(),
            pb == sep.spec_bytes(),
            hay@ == sb,
            needle@ == pb,
            n == sb.len(),
            m == pb.len(),
            last == n - m,
            i <= last,
            first_match(sb, pb) == find_from(sb, pb, i as int),
        decreases last - i,
    {
        if bytes_match_at(hay, needle, i) && s.is_char_boundary(i) && s.is_char_boundary(i + m) {
            return Some(i);
        }
        if i == last {
            assert(find_from(sb, pb, i + 1) == None::<int>);
            return None;
        }
        i += 1;
    }
}

/// Splits `s` in two on the first occurrence of `sep`, dropping the
/// separator; `None` when `sep` does not occur.
pub fn split_first<'a>(s: &'a str, sep: &str) -> (r: Option<(&'a str, &'a str)>)
    ensures
        match first_match(s.spec_bytes(), sep.spec_bytes()) {
            Some(p) => r matches Some((a, b)) && a.spec_bytes() == s.spec_bytes().subrange(0, p)
                && b.spec_bytes() == s.spec_bytes().subrange(
                p + sep.spec_bytes().len(),
                s.spec_bytes().len() as int,
            ),
            None => r.is_none(),
        },
        s.spec_bytes().len() <= usize::MAX,
{
    match find_first(s, sep) {
        Some(p) => {
            proof {
                lemma_first_match_occurs(s.spec_bytes(), sep.spec_bytes());
            }
            let (a, _) = s.split_at(p);
            let (_, b) = s.split_at(p + sep.len());
            Some((a, b))
        },
        None => None,
    }
}

/// Splits `url` in two on the first occurrence of `separator` and returns
/// piece `index` of it: 0 is what comes before the separator (all of `url`
/// when it does not occur), 1 what comes after it. An empty piece, a missing
/// piece and any other index give `None`.
pub fn truncate<'a>(url: &'a str, separator: &'a str, index: usize) -> (r: Option<&'a str>)
    ensures
        opt_bytes(r) == truncated(url.spec_bytes(), separator.spec_bytes(), index as int),
{
    let chosen: Option<&'a str> = match split_first(url, separator) {
        Some((before, after)) => if index == 0 {
            Some(before)
        } else if index == 1 {
            Some(after)
        } else {
            None
        },
        None => if index == 0 {
            Some(url)
        } else {
            None
        },
    };
    assert(opt_bytes(chosen) == piece(url.spec_bytes(), separator.spec_bytes(), index as int));
    proof {
        lemma_first_match_occurs(url.spec_bytes(), separator.spec_bytes());
    }
    match chosen {
        Some(x) => if x.len() == 0 {
            None
        } else {
            Some(x)
        },
        None => None,
    }
}

} // verus!
