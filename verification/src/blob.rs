//! The storage form of an embedding: each component is kept as the bit
//! pattern of an IEEE-754 single (`f32::to_bits`), and a stored blob is the
//! little-endian bytes of those words, one after the other.

use vstd::prelude::*;

verus! {

/// Byte `k` (0 = least significant) of `x`.
pub open spec fn byte_of(x: u32, k: int) -> u8 {
    ((x >> ((8 * k) as u32)) & 0xff) as u8
}

/// The word whose little-endian bytes are `b0, b1, b2, b3`.
pub open spec fn word_of(b0: u8, b1: u8, b2: u8, b3: u8) -> u32 {
    (b0 as u32) | ((b1 as u32) << 8u32) | ((b2 as u32) << 16u32) | ((b3 as u32) << 24u32)
}

/// The little-endian bytes of the words of `v`, one word after the other.
pub open spec fn blob_of(v: Seq<u32>) -> Seq<u8> {
    Seq::new(4 * v.len(), |p: int| byte_of(v[p / 4], p % 4))
}

/// One word per whole group of four bytes of `blob`; trailing bytes that
/// do not fill a group are ignored.
pub open spec fn words_of(blob: Seq<u8>) -> Seq<u32> {
    Seq::new(
        blob.len() / 4,
        |i: int| word_of(blob[4 * i], blob[4 * i + 1], blob[4 * i + 2], blob[4 * i + 3]),
    )
}

proof fn lemma_bytes_word(x: u32)
    ensures
        word_of(byte_of(x, 0), byte_of(x, 1), byte_of(x, 2), byte_of(x, 3)) == x,
{
    assert(((x >> 0u32) & 0xff) as u8 as u32 | (((x >> 8u32) & 0xff) as u8 as u32) << 8u32 | ((
    (x >> 16u32) & 0xff) as u8 as u32) << 16u32 | (((x >> 24u32) & 0xff) as u8 as u32) << 24u32
        == x) by (bit_vector);
}

proof fn lemma_word_bytes(b0: u8, b1: u8, b2: u8, b3: u8)
    ensures
        byte_of(word_of(b0, b1, b2, b3), 0) == b0,
        byte_of(word_of(b0, b1, b2, b3), 1) == b1,
        byte_of(word_of(b0, b1, b2, b3), 2) == b2,
        byte_of(word_of(b0, b1, b2, b3), 3) == b3,
{
    let x = word_of(b0, b1, b2, b3);
    assert(x == (b0 as u32) | ((b1 as u32) << 8u32) | ((b2 as u32) << 16u32) | ((b3 as u32)
        << 24u32));
    assert(((((b0 as u32) | ((b1 as u32) << 8u32) | ((b2 as u32) << 16u32) | ((b3 as u32)
        << 24u32)) >> 0u32) & 0xff) as u8 == b0) by (bit_vector);
    assert(((((b0 as u32) | ((b1 as u32) << 8u32) | ((b2 as u32) << 16u32) | ((b3 as u32)
        << 24u32)) >> 8u32) & 0xff) as u8 == b1) by (bit_vector);
    assert(((((b0 as u32) | ((b1 as u32) << 8u32) | ((b2 as u32) << 16u32) | ((b3 as u32)
        << 24u32)) >> 16u32) & 0xff) as u8 == b2) by (bit_vector);
    assert(((((b0 as u32) | ((b1 as u32) << 8u32) | ((b2 as u32) << 16u32) | ((b3 as u32)
        << 24u32)) >> 24u32) & 0xff) as u8 == b3) by (bit_vector);
}

/// The stored form of an embedding given by the bit patterns of its
/// components.
pub fn embedding_to_blob(v: Vec<u32>) -> (res: Vec<u8>)
    requires
        4 * v@.len() <= usize::MAX,
    ensures
        res@ == blob_of(v@),
{
    let mut res: Vec<u8> = Vec::new();
    let mut i: usize = 0;
    while i < v.len()
        invariant
            i <= v@.len(),
            4 * v@.len() <= usize::MAX,
            res@.len() == 4 * i,
            forall|j: int, k: int|
                0 <= j < i && 0 <= k < 4 ==> #[trigger] res@[4 * j + k] == byte_of(v@[j], k),
        decreases v@.len() - i,
    {
        let x = v[i];
        res.push((x & 0xff) as u8);
        res.push(((x >> 8) & 0xff) as u8);
        res.push(((x >> 16) & 0xff) as u8);
        res.push(((x >> 24) & 0xff) as u8);
        assert forall|j: int, k: int| 0 <= j < i + 1 && 0 <= k < 4 implies #[trigger] res@[4 * j
            + k] == byte_of(v@[j], k) by {
            if j == i {
                assert(x >> 0u32 == x) by (bit_vector);
            }
        }
        i = i + 1;
    }
    assert forall|p: int| 0 <= p < res@.len() implies res@[p] == blob_of(v@)[p] by {
        let j = p / 4;
        let k = p % 4;
        assert(p == 4 * j + k);
    }
    assert(res@ =~= blob_of(v@));
    res
}

/// The bit patterns of the components of an embedding stored as `blob`.
pub fn blob_to_embedding(blob: &[u8]) -> (res: Vec<u32>)
    ensures
        res@ == words_of(blob@),
{
    let mut res: Vec<u32> = Vec::new();
    let len = blob.len();
    let n = len / 4;
    let mut i: usize = 0;
    while i < n
        invariant
            i <= n,
            n == blob@.len() / 4,
            4 * n <= blob@.len(),
            len == blob@.len(),
            res@.len() == i,
            forall|j: int|
                0 <= j < i ==> #[trigger] res@[j] == word_of(
                    blob@[4 * j],
                    blob@[4 * j + 1],
                    blob@[4 * j + 2],
                    blob@[4 * j + 3],
                ),
        decreases n - i,
    {
        let b = 4 * i;
        let w = (blob[b] as u32) | ((blob[b + 1] as u32) << 8) | ((blob[b + 2] as u32) << 16) | ((
        blob[b + 3] as u32) << 24);
        res.push(w);
        i = i + 1;
    }
    assert(res@ =~= words_of(blob@));
    res
}

/// Reading back a stored embedding gives the components that were stored.
pub proof fn law_blob_round_trip(v: Seq<u32>)
    ensures
        words_of(blob_of(v)) == v,
{
    let b = blob_of(v);
    assert forall|i: int| 0 <= i < v.len() implies #[trigger] words_of(b)[i] == v[i] by {
        assert(b[4 * i + 0] == byte_of(v[i], 0));
        assert(b[4 * i + 1] == byte_of(v[i], 1));
        assert(b[4 * i + 2] == byte_of(v[i], 2));
        assert(b[4 * i + 3] == byte_of(v[i], 3));
        lemma_bytes_word(v[i]);
    }
    assert(words_of(b) =~= v);
}

/// A blob made of whole words is given back unchanged by storing the words
/// read from it.
pub proof fn law_words_round_trip(blob: Seq<u8>)
    requires
        blob.len() % 4 == 0,
    ensures
        blob_of(words_of(blob)) == blob,
{
    let v = words_of(blob);
    let b = blob_of(v);
    assert forall|p: int| 0 <= p < blob.len() implies #[trigger] b[p] == blob[p] by {
        let i = p / 4;
        let k = p % 4;
        assert(p == 4 * i + k);
        lemma_word_bytes(blob[4 * i], blob[4 * i + 1], blob[4 * i + 2], blob[4 * i + 3]);
    }
    assert(b =~= blob);
}

} // verus!
