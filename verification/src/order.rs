//! The order of keys: lexicographic on their UTF-8 bytes, as `Ord` on `String`
//! compares them.
use vstd::prelude::*;
use vstd::utf8::{encode_utf8, encode_utf8_decode_utf8};

verus! {

/// `a` comes before `b` lexicographically, comparing from index `i` on.
pub open spec fn bytes_lt_from(a: Seq<u8>, b: Seq<u8>, i: int) -> bool
    decreases a.len() - i,
{
    if i < 0 {
        false
    } else if i >= a.len() {
        i < b.len()
    } else if i >= b.len() {
        false
    } else if a[i] != b[i] {
        a[i] < b[i]
    } else {
        bytes_lt_from(a, b, i + 1)
    }
}

/// `a` comes before `b` in the lexicographic order of byte strings.
pub open spec fn bytes_lt(a: Seq<u8>, b: Seq<u8>) -> bool {
    bytes_lt_from(a, b, 0)
}

/// Key `a` comes before key `b`: their UTF-8 bytes compare so.
pub open spec fn key_lt(a: Seq<char>, b: Seq<char>) -> bool {
    bytes_lt(encode_utf8(a), encode_utf8(b))
}

pub proof fn lemma_bytes_lt_irreflexive(a: Seq<u8>, i: int)
    requires
        0 <= i,
    ensures
        !bytes_lt_from(a, a, i),
    decreases a.len() - i,
{
    if i < a.len() {
        lemma_bytes_lt_irreflexive(a, i + 1);
    }
}

pub proof fn lemma_bytes_lt_transitive(a: Seq<u8>, b: Seq<u8>, c: Seq<u8>, i: int)
    requires
        0 <= i,
        bytes_lt_from(a, b, i),
        bytes_lt_from(b, c, i),
    ensures
        bytes_lt_from(a, c, i),
    decreases a.len() - i,
{
    if i < a.len() && i < b.len() && i < c.len() && a[i] == b[i] && b[i] == c[i] {
        lemma_bytes_lt_transitive(a, b, c, i + 1);
    }
}

pub proof fn lemma_key_lt_irreflexive(a: Seq<char>)
    ensures
        !key_lt(a, a),
{
    lemma_bytes_lt_irreflexive(encode_utf8(a), 0);
}

pub proof fn lemma_key_lt_transitive(a: Seq<char>, b: Seq<char>, c: Seq<char>)
    requires
        key_lt(a, b),
        key_lt(b, c),
    ensures
        key_lt(a, c),
{
    lemma_bytes_lt_transitive(encode_utf8(a), encode_utf8(b), encode_utf8(c), 0);
}

pub proof fn lemma_key_lt_asymmetric(a: Seq<char>, b: Seq<char>)
    requires
        key_lt(a, b),
    ensures
        !key_lt(b, a),
        a != b,
{
    lemma_key_lt_irreflexive(a);
    if key_lt(b, a) {
        lemma_key_lt_transitive(a, b, a);
    }
}

/// The outcome of comparing two keys.
#[derive(Clone, Copy, Debug, PartialEq, Eq, Structural)]
pub enum KeyOrder {
    Less,
    Equal,
    Greater,
}

/// Compares two byte strings lexicographically.
pub fn compare_bytes(a: &[u8], b: &[u8]) -> (res: KeyOrder)
    ensures
        res == KeyOrder::Less <==> bytes_lt(a@, b@),
        res == KeyOrder::Greater <==> bytes_lt(b@, a@),
        res == KeyOrder::Equal <==> a@ == b@,
{
    let mut i: usize = 0;
    while i < a.len() && i < b.len()
        invariant
            i <= a@.len(),
            i <= b@.len(),
            forall|j: int| 0 <= j < i ==> a@[j] == b@[j],
            bytes_lt(a@, b@) == bytes_lt_from(a@, b@, i as int),
            bytes_lt(b@, a@) == bytes_lt_from(b@, a@, i as int),
        decreases a@.len() - i,
    {
        if a[i] < b[i] {
            return KeyOrder::Less;
        }
        if a[i] > b[i] {
            return KeyOrder::Greater;
        }
        i = i + 1;
    }
    if a.len() < b.len() {
        KeyOrder::Less
    } else if a.len() > b.len() {
        KeyOrder::Greater
    } else {
        assert(a@ =~= b@);
        proof {
            lemma_bytes_lt_irreflexive(a@, 0);
        }
        KeyOrder::Equal
    }
}

/// Compares two keys by their UTF-8 bytes.
pub fn compare_keys(a: &str, b: &str) -> (res: KeyOrder)
    ensures
        res == KeyOrder::Less <==> key_lt(a@, b@),
        res == KeyOrder::Greater <==> key_lt(b@, a@),
        res == KeyOrder::Equal <==> a@ == b@,
{
    let r = compare_bytes(a.as_bytes(), b.as_bytes());
    proof {
        encode_utf8_decode_utf8(a@);
        encode_utf8_decode_utf8(b@);
    }
    r
}

} // verus!
