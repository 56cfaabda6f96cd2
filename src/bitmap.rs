//! A bit array kept in memory as its on-disk image: an eight-byte checksum followed by
//! the payload, eight bits per byte, the most significant bit first.
use vstd::prelude::*;
use crate::checksum::{CHECKSUM_SIZE, checksum_ok, page_hash, payload_of, stored_checksum,
    update_checksum, validate_checksum};
use crate::error::{DbError, DbErrorKind};

verus! {

/// Number of bits in a word of the payload.
pub const BITS_PER_WORD: usize = 8;

/// A word with every bit set.
pub const FULL_WORD: u8 = 255;

/// The mask that selects bit `k` (0 is the most significant) of a word.
pub open spec fn mask_of(k: u8) -> u8 {
    (1u8 << (7 - k) as u8) as u8
}

/// Bit `i` of `p`; false past its end.
pub open spec fn bit_at(p: Seq<u8>, i: int) -> bool {
    &&& 0 <= i
    &&& i / 8 < p.len()
    &&& p[i / 8] & mask_of((i % 8) as u8) != 0
}

/// Word `w` of `p`; zero past its end.
pub open spec fn word_at(p: Seq<u8>, w: int) -> u8 {
    if 0 <= w < p.len() {
        p[w]
    } else {
        0
    }
}

/// `p` with its trailing zero words removed.
pub open spec fn strip_zeros(p: Seq<u8>) -> Seq<u8>
    decreases p.len(),
{
    if p.len() > 0 && p.last() == 0 {
        strip_zeros(p.drop_last())
    } else {
        p
    }
}

pub proof fn lemma_strip_zeros(p: Seq<u8>)
    ensures
        strip_zeros(p).len() <= p.len(),
        forall|i: int| 0 <= i < strip_zeros(p).len() ==> strip_zeros(p)[i] == p[i],
        forall|i: int| strip_zeros(p).len() <= i < p.len() ==> p[i] == 0,
        strip_zeros(p).len() == 0 || strip_zeros(p).last() != 0,
    decreases p.len(),
{
    if p.len() > 0 && p.last() == 0 {
        lemma_strip_zeros(p.drop_last());
        assert forall|i: int| 0 <= i < strip_zeros(p).len() implies strip_zeros(p)[i] == p[i] by {
            assert(p.drop_last()[i] == p[i]);
        }
        assert forall|i: int| strip_zeros(p).len() <= i < p.len() implies p[i] == 0 by {
            if i < p.len() - 1 {
                assert(p.drop_last()[i] == p[i]);
            }
        }
    }
}

/// `p` extended with zero words to length `n`, if it is shorter.
pub open spec fn grown(p: Seq<u8>, n: int) -> Seq<u8> {
    if p.len() < n {
        p + Seq::new((n - p.len()) as nat, |i: int| 0u8)
    } else {
        p
    }
}

proof fn lemma_mask_bits(w: u8, k: u8, j: u8)
    requires
        k < 8,
        j < 8,
    ensures
        (w | mask_of(k)) & mask_of(j) != 0 <==> (j == k || w & mask_of(j) != 0),
        (w & !mask_of(k)) & mask_of(j) != 0 <==> (j != k && w & mask_of(j) != 0),
{
    assert((w | ((1u8 << (7 - k) as u8) as u8)) & ((1u8 << (7 - j) as u8) as u8) != 0 <==> (j
        == k || w & ((1u8 << (7 - j) as u8) as u8) != 0)) by (bit_vector)
        requires
            k < 8,
            j < 8,
    ;
    assert((w & !((1u8 << (7 - k) as u8) as u8)) & ((1u8 << (7 - j) as u8) as u8) != 0 <==> (j
        != k && w & ((1u8 << (7 - j) as u8) as u8) != 0)) by (bit_vector)
        requires
            k < 8,
            j < 8,
    ;
}

pub proof fn lemma_zero_word_bits(j: u8)
    requires
        j < 8,
    ensures
        0u8 & mask_of(j) == 0,
{
    assert(0u8 & ((1u8 << (7 - j) as u8) as u8) == 0) by (bit_vector);
}

pub proof fn lemma_full_word(w: u8)
    ensures
        w == FULL_WORD <==> forall|j: u8| j < 8 ==> #[trigger] (w & mask_of(j)) != 0,
{
    if w != FULL_WORD {
        let j = choose_clear_bit(w);
        assert(w & mask_of(j) == 0);
    } else {
        assert forall|j: u8| j < 8 implies #[trigger] (w & mask_of(j)) != 0 by {
            assert(255u8 & ((1u8 << (7 - j) as u8) as u8) != 0) by (bit_vector)
                requires
                    j < 8,
            ;
        }
    }
}

proof fn choose_clear_bit(w: u8) -> (j: u8)
    requires
        w != FULL_WORD,
    ensures
        j < 8,
        w & mask_of(j) == 0,
{
    if w & mask_of(0) == 0 {
        0
    } else if w & mask_of(1) == 0 {
        1
    } else if w & mask_of(2) == 0 {
        2
    } else if w & mask_of(3) == 0 {
        3
    } else if w & mask_of(4) == 0 {
        4
    } else if w & mask_of(5) == 0 {
        5
    } else if w & mask_of(6) == 0 {
        6
    } else {
        assert(w & mask_of(7) == 0) by {
            assert(w & ((1u8 << 7u8) as u8) != 0 && w & ((1u8 << 6u8) as u8) != 0 && w & ((1u8
                << 5u8) as u8) != 0 && w & ((1u8 << 4u8) as u8) != 0 && w & ((1u8 << 3u8) as u8)
                != 0 && w & ((1u8 << 2u8) as u8) != 0 && w & ((1u8 << 1u8) as u8) != 0 && w
                != 255u8 ==> w & ((1u8 << 0u8) as u8) == 0) by (bit_vector);
        }
        7
    }
}

/// The mask of bit `k` of a word.
pub fn word_mask(k: usize) -> (r: u8)
    requires
        k < 8,
    ensures
        r == mask_of(k as u8),
{
    let kk = k as u8;
    1u8 << (7 - kk)
}

/// An allocation bitmap, held as the bytes of its file.
pub struct Bitmap {
    cache: Vec<u8>,
}

impl View for Bitmap {
    type V = Seq<u8>;

    /// The payload: the stored words after the checksum.
    closed spec fn view(&self) -> Seq<u8> {
        payload_of(self.cache@)
    }
}

impl Bitmap {
    pub closed spec fn wf(&self) -> bool {
        CHECKSUM_SIZE <= self.cache@.len() <= usize::MAX
    }

    /// The bytes as they stand in memory, checksum first.
    pub closed spec fn image(&self) -> Seq<u8> {
        self.cache@
    }

    /// An empty bitmap.
    pub fn new() -> (r: Bitmap)
        ensures
            r.wf(),
            r@ == Seq::<u8>::empty(),
    {
        let r = Bitmap { cache: vec![0u8; CHECKSUM_SIZE] };
        assert(r@ =~= Seq::<u8>::empty());
        r
    }

    /// Takes a bitmap from the bytes of its file. An empty file gives an empty bitmap;
    /// otherwise the stored checksum must be zero or match the payload.
    pub fn load(bytes: Vec<u8>) -> (r: Result<Bitmap, DbError>)
        ensures
            r is Ok <==> (bytes@.len() == 0 || checksum_ok(bytes@)),
            r matches Ok(b) ==> b.wf() && (if bytes@.len() == 0 {
                b@ == Seq::<u8>::empty()
            } else {
                b@ == payload_of(bytes@)
            }),
            r matches Err(e) ==> (e.kind == DbErrorKind::InvalidInput || e.kind
                == DbErrorKind::InvalidData),
    {
        if bytes.len() == 0 {
            return Ok(Bitmap::new());
        }
        match validate_checksum(bytes.as_slice()) {
            Ok(()) => Ok(Bitmap { cache: bytes }),
            Err(e) => Err(e),
        }
    }

    /// Number of payload bytes.
    pub fn len(&self) -> (r: usize)
        requires
            self.wf(),
        ensures
            r == self@.len(),
    {
        self.cache.len() - CHECKSUM_SIZE
    }

    /// The bit at `idx`; false past the payload.
    pub fn get_bit(&self, idx: usize) -> (r: bool)
        requires
            self.wf(),
        ensures
            r == bit_at(self@, idx as int),
    {
        let word_idx = idx / BITS_PER_WORD;
        if word_idx >= self.len() {
            return false;
        }
        let mask = word_mask(idx % BITS_PER_WORD);
        self.cache[CHECKSUM_SIZE + word_idx] & mask != 0
    }

    /// The word at `word_idx`; zero past the payload.
    pub fn get_word(&self, word_idx: usize) -> (r: u8)
        requires
            self.wf(),
        ensures
            r == word_at(self@, word_idx as int),
    {
        if word_idx < self.len() {
            self.cache[CHECKSUM_SIZE + word_idx]
        } else {
            0
        }
    }

    /// Sets the bit at `idx` to `bit`, growing the payload with zero words to reach it.
    pub fn set_bit(&mut self, idx: usize, bit: bool)
        requires
            old(self).wf(),
            idx / 8 + 1 + CHECKSUM_SIZE <= usize::MAX,
        ensures
            final(self).wf(),
            final(self)@.len() == if old(self)@.len() > idx / 8 {
                old(self)@.len() as int
            } else {
                idx / 8 + 1
            },
            forall|i: int| #[trigger]
                bit_at(final(self)@, i) == if i == idx {
                    bit
                } else {
                    bit_at(old(self)@, i)
                },
            forall|w: int|
                0 <= w < final(self)@.len() && w != idx / 8 ==> #[trigger] final(self)@[w]
                    == word_at(old(self)@, w),
    {
        let word_idx = idx / BITS_PER_WORD;
        let bit_idx = idx % BITS_PER_WORD;
        let mask = word_mask(bit_idx);
        self.grow(word_idx + 1);
        assert(grown(old(self)@, word_idx + 1).len() >= word_idx + 1);
        let pos = CHECKSUM_SIZE + word_idx;
        let w = self.cache[pos];
        let nw = if bit {
            w | mask
        } else {
            w & !mask
        };
        let ghost g = self@;
        self.cache.set(pos, nw);
        proof {
            let w0 = old(self)@;
            let w1 = self@;
            assert(w1 =~= g.update(word_idx as int, nw));
            assert(g[word_idx as int] == w);
            assert forall|v: int| 0 <= v < g.len() implies #[trigger] g[v] == word_at(w0, v) by {
                if v < w0.len() {
                    assert(g[v] == w0[v]);
                }
            }
            assert forall|i: int| #[trigger] bit_at(w1, i) == if i == idx {
                bit
            } else {
                bit_at(w0, i)
            } by {
                if 0 <= i && i / 8 < w1.len() {
                    if i / 8 == word_idx {
                        lemma_mask_bits(w, bit_idx as u8, (i % 8) as u8);
                        if i / 8 >= w0.len() {
                            lemma_zero_word_bits((i % 8) as u8);
                        }
                        assert(i == idx <==> i % 8 == bit_idx);
                    } else if i / 8 >= w0.len() {
                        lemma_zero_word_bits((i % 8) as u8);
                    }
                }
            }
        }
    }

    /// Drops the trailing zero words of the payload.
    pub fn compact(&mut self)
        requires
            old(self).wf(),
        ensures
            final(self).wf(),
            final(self)@ == strip_zeros(old(self)@),
    {
        while self.cache.len() > CHECKSUM_SIZE && self.cache[self.cache.len() - 1] == 0
            invariant
                self.wf(),
                strip_zeros(self@) == strip_zeros(old(self)@),
            decreases self.cache@.len(),
        {
            let ghost before = self@;
            self.cache.pop();
            assert(self@ =~= before.drop_last());
        }
    }

    /// Compacts and writes the checksum: afterwards `as_bytes` is the file image to persist.
    pub fn sync(&mut self)
        requires
            old(self).wf(),
        ensures
            final(self).wf(),
            final(self)@ == strip_zeros(old(self)@),
            checksum_ok(final(self).image()),
            stored_checksum(final(self).image()) == page_hash(final(self)@),
    {
        self.compact();
        self.write_checksum();
    }

    /// Stores the checksum of the payload in front of it.
    pub fn write_checksum(&mut self)
        requires
            old(self).wf(),
        ensures
            final(self).wf(),
            final(self)@ == old(self)@,
            checksum_ok(final(self).image()),
            stored_checksum(final(self).image()) == page_hash(final(self)@),
    {
        let r = update_checksum(self.cache.as_mut_slice());
        assert(self@ =~= old(self)@);
    }

    /// The bytes of the file image, checksum first.
    pub fn as_bytes(&self) -> (r: &[u8])
        ensures
            r@ == self.image(),
    {
        self.cache.as_slice()
    }

    fn grow(&mut self, to: usize)
        requires
            old(self).wf(),
            to + CHECKSUM_SIZE <= usize::MAX,
        ensures
            final(self).wf(),
            final(self)@ == grown(old(self)@, to as int),
    {
        if self.len() < to {
            self.cache.resize(to + CHECKSUM_SIZE, 0);
            assert(self@ =~= grown(old(self)@, to as int));
        }
    }
}

} // verus!
