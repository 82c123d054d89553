//! Sequences of 64-bit words as bytes: each word as eight bytes, least
//! significant byte first.

use vstd::bytes::{
    lemma_auto_spec_u64_to_from_le_bytes, spec_u64_from_le_bytes, spec_u64_to_le_bytes,
    u64_from_le_bytes, u64_to_le_bytes,
};
use vstd::prelude::*;
use vstd::slice::slice_subrange;

verus! {

/// The bytes of a sequence of words.
pub open spec fn words_to_bytes(w: Seq<u64>) -> Seq<u8> {
    Seq::new((8 * w.len()) as nat, |k: int| spec_u64_to_le_bytes(w[k / 8])[k % 8])
}

/// The words that the bytes hold, eight bytes to a word. Bytes beyond the
/// last whole word are left out.
pub open spec fn bytes_to_words(b: Seq<u8>) -> Seq<u64> {
    Seq::new((b.len() / 8) as nat, |i: int| spec_u64_from_le_bytes(b.subrange(8 * i, 8 * i + 8)))
}

/// The eight bytes at the place of word `i` are the bytes of that word.
proof fn lemma_word_bytes_at(w: Seq<u64>, i: int)
    requires
        0 <= i < w.len(),
    ensures
        words_to_bytes(w).subrange(8 * i, 8 * i + 8) == spec_u64_to_le_bytes(w[i]),
{
    lemma_auto_spec_u64_to_from_le_bytes();
    let b = words_to_bytes(w);
    let s = b.subrange(8 * i, 8 * i + 8);
    let t = spec_u64_to_le_bytes(w[i]);
    assert(t.len() == 8);
    assert forall|k: int| 0 <= k < 8 implies s[k] == t[k] by {
        assert((8 * i + k) / 8 == i);
        assert((8 * i + k) % 8 == k);
    }
    assert(s =~= t);
}

/// Words written as bytes are read back as the same words.
pub proof fn lemma_words_round_trip(w: Seq<u64>)
    ensures
        words_to_bytes(w).len() == 8 * w.len(),
        bytes_to_words(words_to_bytes(w)) == w,
{
    lemma_auto_spec_u64_to_from_le_bytes();
    let b = words_to_bytes(w);
    let r = bytes_to_words(b);
    assert(r.len() == w.len());
    assert forall|i: int| 0 <= i < w.len() implies r[i] == w[i] by {
        lemma_word_bytes_at(w, i);
    }
    assert(r =~= w);
}

/// Writes the words as bytes.
pub fn encode_words(words: &Vec<u64>) -> (r: Vec<u8>)
    ensures
        r@ == words_to_bytes(words@),
{
    let mut out: Vec<u8> = Vec::new();
    let mut i: usize = 0;
    while i < words.len()
        invariant
            i <= words.len(),
            out@ == words_to_bytes(words@.subrange(0, i as int)),
        decreases words.len() - i,
    {
        let mut chunk = u64_to_le_bytes(words[i]);
        let ghost before = out@;
        out.append(&mut chunk);
        proof {
            let p = words@.subrange(0, i as int);
            let q = words@.subrange(0, i + 1);
            let target = words_to_bytes(q);
            assert(out@.len() == target.len());
            assert forall|k: int| 0 <= k < target.len() implies out@[k] == target[k] by {
                if k < 8 * i {
                    assert(k / 8 < i);
                    assert(q[k / 8] == p[k / 8]);
                    assert(before[k] == spec_u64_to_le_bytes(p[k / 8])[k % 8]);
                } else {
                    assert(k / 8 == i);
                    assert(k % 8 == k - 8 * i);
                    assert(q[k / 8] == words@[i as int]);
                }
            }
            assert(out@ =~= target);
        }
        i += 1;
    }
    assert(words@.subrange(0, i as int) =~= words@);
    out
}

/// Reads the bytes as words. `None` exactly where the bytes are not whole
/// words.
pub fn decode_words(bytes: &[u8]) -> (r: Option<Vec<u64>>)
    ensures
        r is Some <==> bytes@.len() % 8 == 0,
        r matches Some(w) ==> w@ == bytes_to_words(bytes@),
{
    let len = bytes.len();
    if len % 8 != 0 {
        return None;
    }
    let count = len / 8;
    let mut out: Vec<u64> = Vec::new();
    let mut i: usize = 0;
    while i < count
        invariant
            i <= count,
            count == len / 8,
            len == bytes@.len(),
            len % 8 == 0,
            out@.len() == i,
            forall|j: int| 0 <= j < i ==> out@[j] == bytes_to_words(bytes@)[j],
        decreases count - i,
    {
        let chunk = slice_subrange(bytes, 8 * i, 8 * i + 8);
        out.push(u64_from_le_bytes(chunk));
        i += 1;
    }
    assert(out@ =~= bytes_to_words(bytes@));
    Some(out)
}

} // verus!
