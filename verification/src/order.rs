//! The lexicographic order on byte strings, by which stored keys and
//! published identifiers are ordered.

use vstd::prelude::*;
use vstd::string::*;
use vstd::utf8::*;

verus! {

/// Two byte strings agree on their first `k` bytes.
pub open spec fn agree(a: Seq<u8>, b: Seq<u8>, k: int) -> bool {
    &&& 0 <= k <= a.len()
    &&& k <= b.len()
    &&& forall|i: int| 0 <= i < k ==> a[i] == b[i]
}

/// `a` comes before `b` and `k` is where they part: `a` ends there and `b`
/// goes on, or `a` has the smaller byte there.
pub open spec fn parts_before(a: Seq<u8>, b: Seq<u8>, k: int) -> bool {
    &&& agree(a, b, k)
    &&& k < b.len()
    &&& (k == a.len() || a[k] < b[k])
}

/// The strict lexicographic order on byte strings.
pub open spec fn bytes_before(a: Seq<u8>, b: Seq<u8>) -> bool {
    exists|k: int| parts_before(a, b, k)
}

/// How two values stand in an order.
#[derive(Clone, Copy, Debug, PartialEq, Eq, Structural)]
pub enum Rank {
    Before,
    Same,
    After,
}

/// No byte string comes before itself.
pub proof fn lemma_before_irreflexive(a: Seq<u8>)
    ensures
        !bytes_before(a, a),
{
    if bytes_before(a, a) {
        let k = choose|k: int| parts_before(a, a, k);
        assert(false);
    }
}

/// Of two byte strings at most one comes before the other.
pub proof fn lemma_before_asymmetric(a: Seq<u8>, b: Seq<u8>)
    ensures
        !(bytes_before(a, b) && bytes_before(b, a)),
{
    if bytes_before(a, b) && bytes_before(b, a) {
        let k = choose|k: int| parts_before(a, b, k);
        let m = choose|m: int| parts_before(b, a, m);
        if k < m {
            assert(b[k] == a[k]);
        } else if m < k {
            assert(a[m] == b[m]);
        }
        assert(false);
    }
}

/// The order is transitive.
pub proof fn lemma_before_transitive(a: Seq<u8>, b: Seq<u8>, c: Seq<u8>)
    requires
        bytes_before(a, b),
        bytes_before(b, c),
    ensures
        bytes_before(a, c),
{
    let k = choose|k: int| parts_before(a, b, k);
    let m = choose|m: int| parts_before(b, c, m);
    let n = if k <= m { k } else { m };
    assert forall|i: int| 0 <= i < n implies a[i] == c[i] by {
        assert(a[i] == b[i]);
        assert(b[i] == c[i]);
    }
    if k < m {
        assert(b[k] == c[k]);
    } else if m < k {
        assert(a[m] == b[m]);
    }
    assert(parts_before(a, c, n));
}

/// Compares two byte strings lexicographically.
pub fn compare_bytes(a: &[u8], b: &[u8]) -> (r: Rank)
    ensures
        r == Rank::Before <==> bytes_before(a@, b@),
        r == Rank::Same <==> a@ == b@,
        r == Rank::After <==> bytes_before(b@, a@),
{
    let mut i: usize = 0;
    while i < a.len() && i < b.len()
        invariant
            agree(a@, b@, i as int),
        decreases a.len() - i,
    {
        if a[i] < b[i] {
            proof {
                assert(parts_before(a@, b@, i as int));
                lemma_before_asymmetric(a@, b@);
                lemma_before_irreflexive(a@);
            }
            return Rank::Before;
        }
        if b[i] < a[i] {
            proof {
                assert(agree(b@, a@, i as int));
                assert(parts_before(b@, a@, i as int));
                lemma_before_asymmetric(a@, b@);
                lemma_before_irreflexive(a@);
            }
            return Rank::After;
        }
        i += 1;
    }
    proof {
        lemma_before_asymmetric(a@, b@);
        lemma_before_irreflexive(a@);
    }
    if i < b.len() {
        assert(parts_before(a@, b@, i as int));
        Rank::Before
    } else if i < a.len() {
        assert(agree(b@, a@, i as int));
        assert(parts_before(b@, a@, i as int));
        Rank::After
    } else {
        assert(a@ =~= b@);
        Rank::Same
    }
}

/// The order on texts: that of their UTF-8 bytes, which is the order of
/// `str`.
pub open spec fn text_before(a: Seq<char>, b: Seq<char>) -> bool {
    bytes_before(encode_utf8(a), encode_utf8(b))
}

/// Texts with the same UTF-8 bytes are the same text.
pub proof fn lemma_utf8_injective(a: Seq<char>, b: Seq<char>)
    requires
        encode_utf8(a) == encode_utf8(b),
    ensures
        a == b,
{
    encode_utf8_decode_utf8(a);
    encode_utf8_decode_utf8(b);
}

/// No text comes before itself, and of two texts at most one comes before
/// the other.
pub proof fn lemma_text_asymmetric(a: Seq<char>, b: Seq<char>)
    ensures
        !text_before(a, a),
        !(text_before(a, b) && text_before(b, a)),
{
    lemma_before_irreflexive(encode_utf8(a));
    lemma_before_asymmetric(encode_utf8(a), encode_utf8(b));
}

/// The order on texts is transitive.
pub proof fn lemma_text_transitive(a: Seq<char>, b: Seq<char>, c: Seq<char>)
    requires
        text_before(a, b),
        text_before(b, c),
    ensures
        text_before(a, c),
{
    lemma_before_transitive(encode_utf8(a), encode_utf8(b), encode_utf8(c));
}

/// Compares two texts as `str` orders them.
pub fn compare_text(a: &str, b: &str) -> (r: Rank)
    ensures
        r == Rank::Before <==> text_before(a@, b@),
        r == Rank::Same <==> a@ == b@,
        r == Rank::After <==> text_before(b@, a@),
{
    let r = compare_bytes(a.as_bytes(), b.as_bytes());
    proof {
        if encode_utf8(a@) == encode_utf8(b@) {
            lemma_utf8_injective(a@, b@);
        }
    }
    r
}

/// Whether two texts are the same.
pub fn same_text(a: &str, b: &str) -> (same: bool)
    ensures
        same == (a@ == b@),
{
    match compare_text(a, b) {
        Rank::Same => true,
        _ => false,
    }
}

/// Two sequences that ascend in an asymmetric order and agree on their
/// first `n - 1` items agree on their `n`-th too, if each item of one
/// occurs in the other.
proof fn lemma_ascending_prefix<K>(a: Seq<K>, b: Seq<K>, before: spec_fn(K, K) -> bool, n: int)
    requires
        forall|i: int, j: int| 0 <= i < j < a.len() ==> before(a[i], a[j]),
        forall|i: int, j: int| 0 <= i < j < b.len() ==> before(b[i], b[j]),
        forall|x: K, y: K| !(#[trigger] before(x, y) && before(y, x)),
        forall|i: int| 0 <= i < a.len() ==> b.contains(#[trigger] a[i]),
        forall|j: int| 0 <= j < b.len() ==> a.contains(#[trigger] b[j]),
        0 <= n <= a.len(),
        n <= b.len(),
    ensures
        forall|i: int| 0 <= i < n ==> a[i] == b[i],
    decreases n,
{
    if n > 0 {
        lemma_ascending_prefix(a, b, before, n - 1);
        let i = n - 1;
        assert(b.contains(a[i]));
        let k = choose|k: int| 0 <= k < b.len() && b[k] == a[i];
        assert(a.contains(b[i]));
        let m = choose|m: int| 0 <= m < a.len() && a[m] == b[i];
        if k < i {
            assert(before(a[k], a[i]));
            assert(!(before(a[i], a[i]) && before(a[i], a[i])));
        } else if m < i {
            assert(before(b[m], b[i]));
            assert(!(before(b[i], b[i]) && before(b[i], b[i])));
        } else if k > i && m > i {
            assert(before(b[i], b[k]));
            assert(before(a[i], a[m]));
            assert(!(before(a[i], b[i]) && before(b[i], a[i])));
        } else {
        }
    }
}

/// Two sequences that ascend in an asymmetric order and hold the same items
/// are the same sequence.
pub proof fn lemma_ascending_unique<K>(a: Seq<K>, b: Seq<K>, before: spec_fn(K, K) -> bool)
    requires
        forall|i: int, j: int| 0 <= i < j < a.len() ==> before(a[i], a[j]),
        forall|i: int, j: int| 0 <= i < j < b.len() ==> before(b[i], b[j]),
        forall|x: K, y: K| !(#[trigger] before(x, y) && before(y, x)),
        forall|i: int| 0 <= i < a.len() ==> b.contains(#[trigger] a[i]),
        forall|j: int| 0 <= j < b.len() ==> a.contains(#[trigger] b[j]),
    ensures
        a == b,
{
    let n = if a.len() <= b.len() { a.len() as int } else { b.len() as int };
    lemma_ascending_prefix(a, b, before, n);
    if a.len() < b.len() {
        assert(a.contains(b[n]));
        let m = choose|m: int| 0 <= m < a.len() && a[m] == b[n];
        assert(before(b[m], b[n]));
        assert(!(before(b[n], b[n]) && before(b[n], b[n])));
    } else if b.len() < a.len() {
        assert(b.contains(a[n]));
        let m = choose|m: int| 0 <= m < b.len() && b[m] == a[n];
        assert(before(a[m], a[n]));
        assert(!(before(a[n], a[n]) && before(a[n], a[n])));
    }
    assert(a =~= b);
}

} // verus!
