//! Exact equality and ordering of song titles.
//!
//! Titles are ordered as `str` orders them: lexicographically by the bytes of
//! their UTF-8 encoding.
use vstd::prelude::*;
use vstd::utf8::*;
use core::cmp::Ordering;

verus! {

/// `a` comes strictly before `b` in lexicographic byte order.
pub open spec fn bytes_before(a: Seq<u8>, b: Seq<u8>) -> bool {
    exists|k: int|
        #![trigger a.subrange(0, k)]
        0 <= k <= a.len() && k <= b.len() && a.subrange(0, k) == b.subrange(0, k) && (
        (k == a.len() && k < b.len()) || (k < a.len() && k < b.len() && a[k] < b[k]))
}

/// Title `a` comes strictly before title `b`.
pub open spec fn title_before(a: Seq<char>, b: Seq<char>) -> bool {
    bytes_before(encode_utf8(a), encode_utf8(b))
}

pub proof fn lemma_bytes_before_irreflexive(a: Seq<u8>)
    ensures
        !bytes_before(a, a),
{
}

pub proof fn lemma_bytes_before_asymmetric(a: Seq<u8>, b: Seq<u8>)
    ensures
        !(bytes_before(a, b) && bytes_before(b, a)),
{
    if bytes_before(a, b) && bytes_before(b, a) {
        let k1 = choose|k: int|
            #![trigger a.subrange(0, k)]
            0 <= k <= a.len() && k <= b.len() && a.subrange(0, k) == b.subrange(0, k) && (
            (k == a.len() && k < b.len()) || (k < a.len() && k < b.len() && a[k] < b[k]));
        let k2 = choose|k: int|
            #![trigger b.subrange(0, k)]
            0 <= k <= b.len() && k <= a.len() && b.subrange(0, k) == a.subrange(0, k) && (
            (k == b.len() && k < a.len()) || (k < b.len() && k < a.len() && b[k] < a[k]));
        if k1 < k2 {
            assert(a.subrange(0, k2)[k1] == b.subrange(0, k2)[k1]);
        } else if k2 < k1 {
            assert(a.subrange(0, k1)[k2] == b.subrange(0, k1)[k2]);
        }
    }
}

pub proof fn lemma_bytes_before_transitive(a: Seq<u8>, b: Seq<u8>, c: Seq<u8>)
    requires
        bytes_before(a, b),
        bytes_before(b, c),
    ensures
        bytes_before(a, c),
{
    let k1 = choose|k: int|
        #![trigger a.subrange(0, k)]
        0 <= k <= a.len() && k <= b.len() && a.subrange(0, k) == b.subrange(0, k) && (
        (k == a.len() && k < b.len()) || (k < a.len() && k < b.len() && a[k] < b[k]));
    let k2 = choose|k: int|
        #![trigger b.subrange(0, k)]
        0 <= k <= b.len() && k <= c.len() && b.subrange(0, k) == c.subrange(0, k) && (
        (k == b.len() && k < c.len()) || (k < b.len() && k < c.len() && b[k] < c[k]));
    let k = if k1 < k2 { k1 } else { k2 };
    assert(a.subrange(0, k) =~= c.subrange(0, k)) by {
        assert forall|j: int| 0 <= j < k implies a.subrange(0, k)[j] == c.subrange(0, k)[j] by {
            assert(a.subrange(0, k1)[j] == b.subrange(0, k1)[j]);
            assert(b.subrange(0, k2)[j] == c.subrange(0, k2)[j]);
        }
    }
    if k1 < k2 {
        assert(b.subrange(0, k2)[k1] == c.subrange(0, k2)[k1]);
    } else if k2 < k1 {
        assert(a.subrange(0, k1)[k2] == b.subrange(0, k1)[k2]);
    }
}

pub proof fn lemma_title_before_irreflexive(a: Seq<char>)
    ensures
        !title_before(a, a),
{
    lemma_bytes_before_irreflexive(encode_utf8(a));
}

pub proof fn lemma_title_before_asymmetric(a: Seq<char>, b: Seq<char>)
    ensures
        !(title_before(a, b) && title_before(b, a)),
{
    lemma_bytes_before_asymmetric(encode_utf8(a), encode_utf8(b));
}

pub proof fn lemma_title_before_transitive(a: Seq<char>, b: Seq<char>, c: Seq<char>)
    requires
        title_before(a, b),
        title_before(b, c),
    ensures
        title_before(a, c),
{
    lemma_bytes_before_transitive(encode_utf8(a), encode_utf8(b), encode_utf8(c));
}

/// Three-way comparison of two titles in `str` order.
pub fn compare_titles(a: &str, b: &str) -> (r: Ordering)
    ensures
        (r == Ordering::Less) <==> title_before(a@, b@),
        (r == Ordering::Equal) <==> a@ == b@,
        (r == Ordering::Greater) <==> title_before(b@, a@),
{
    let x = a.as_bytes();
    let y = b.as_bytes();
    proof {
        lemma_title_before_irreflexive(a@);
        lemma_title_before_asymmetric(a@, b@);
        encode_utf8_decode_utf8(a@);
        encode_utf8_decode_utf8(b@);
    }
    let mut i: usize = 0;
    while i < x.len() && i < y.len()
        invariant
            x@ == encode_utf8(a@),
            y@ == encode_utf8(b@),
            i <= x@.len(),
            i <= y@.len(),
            x@.subrange(0, i as int) == y@.subrange(0, i as int),
        decreases x@.len() - i,
    {
        if x[i] < y[i] {
            assert(x@.subrange(0, i as int) == y@.subrange(0, i as int));
            assert(bytes_before(x@, y@));
            proof {
                lemma_title_before_asymmetric(a@, b@);
            }
            return Ordering::Less;
        }
        if x[i] > y[i] {
            assert(y@.subrange(0, i as int) == x@.subrange(0, i as int));
            assert(bytes_before(y@, x@));
            proof {
                lemma_title_before_asymmetric(a@, b@);
            }
            return Ordering::Greater;
        }
        assert(x@.subrange(0, i + 1) =~= x@.subrange(0, i as int).push(x@[i as int]));
        assert(y@.subrange(0, i + 1) =~= y@.subrange(0, i as int).push(y@[i as int]));
        i = i + 1;
    }
    if x.len() < y.len() {
        assert(x@.subrange(0, i as int) == y@.subrange(0, i as int));
        Ordering::Less
    } else if x.len() > y.len() {
        assert(y@.subrange(0, i as int) == x@.subrange(0, i as int));
        Ordering::Greater
    } else {
        assert(x@ =~= x@.subrange(0, i as int));
        assert(y@ =~= y@.subrange(0, i as int));
        Ordering::Equal
    }
}

/// Whether two titles are exactly equal (case-sensitive, no normalisation).
pub fn same_title(a: &str, b: &str) -> (r: bool)
    ensures
        r == (a@ == b@),
{
    match compare_titles(a, b) {
        Ordering::Equal => true,
        _ => false,
    }
}

} // verus!
