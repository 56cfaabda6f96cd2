//! Page-identifier allocation over the bitmap: bit `i` set means identifier `i` is in use.
//! An ordered index of the words that still hold a clear bit finds the smallest free
//! identifier without scanning the full words before it.
use vstd::prelude::*;
use vstd::std_specs::cmp::OrdSpec;
use vstd::std_specs::iter::IteratorSpec;
use std::collections::BTreeSet;
use crate::bitmap::{Bitmap, BITS_PER_WORD, FULL_WORD, bit_at, word_at, mask_of, strip_zeros,
    lemma_strip_zeros, word_mask};

verus! {

broadcast use vstd::std_specs::btree::group_btree_axioms, vstd::laws_cmp::group_laws_cmp;

/// Most words a bitmap may hold: every identifier then fits a non-negative `i32`.
pub const MAX_WORDS: usize = 0x1000_0000;

/// The words of `p` that have a clear bit.
pub open spec fn index_ok(free: Set<usize>, p: Seq<u8>) -> bool {
    forall|w: usize| free.contains(w) <==> (w < p.len() && p[w as int] != FULL_WORD)
}

/// Every bit below `n` is set.
pub open spec fn all_set_below(p: Seq<u8>, n: int) -> bool {
    forall|j: int| 0 <= j < n ==> #[trigger] bit_at(p, j)
}

proof fn lemma_full_word_bits(p: Seq<u8>, j: int)
    requires
        0 <= j,
        j / 8 < p.len(),
        p[j / 8] == FULL_WORD,
    ensures
        bit_at(p, j),
{
    let k = (j % 8) as u8;
    assert(255u8 & ((1u8 << (7 - k) as u8) as u8) != 0) by (bit_vector)
        requires
            k < 8,
    ;
}

/// The smallest element of `s`, if any.
fn first(s: &BTreeSet<usize>) -> (r: Option<usize>)
    ensures
        r is None <==> s@.is_empty(),
        r matches Some(v) ==> s@.contains(v) && forall|x: usize| s@.contains(x) ==> v <= x,
{
    let ghost rem = vstd::std_specs::btree::spec_btree_keys_iter(s).remaining();
    let mut r: Option<usize> = None;
    for x in it: s.iter()
        invariant_except_break
            it.index() == 0,
            r is None,
        invariant
            it.seq() == rem,
        ensures
            r matches Some(v) ==> rem.len() > 0 && v == *rem[0],
            r is None ==> rem.len() == 0,
    {
        r = Some(*x);
        break;
    }
    proof {
        assert(rem.unref().to_set() == s@);
        assert(vstd::laws_cmp::obeys_cmp::<&usize>());
        match r {
            Some(v) => {
                assert(rem.unref()[0] == v);
                assert forall|x: usize| s@.contains(x) implies v <= x by {
                    assert(rem.unref().to_set().contains(x));
                    let k = choose|k: int| 0 <= k < rem.unref().len() && rem.unref()[k] == x;
                    assert(*rem[k] == x);
                    if k > 0 {
                        vstd::std_specs::btree::axiom_increasing_seq_meaning(rem);
                        assert(<&usize as OrdSpec>::cmp_spec(&rem[0], &rem[k]) is Less);
                    }
                }
            },
            None => {
                assert(rem.unref() =~= Seq::<usize>::empty());
                assert(s@ =~= Set::<usize>::empty());
            },
        }
    }
    r
}

/// The allocator: a bitmap and the ordered index of its words with a clear bit.
pub struct Selector {
    bitmap: Bitmap,
    free: BTreeSet<usize>,
}

impl View for Selector {
    type V = Seq<u8>;

    /// The payload of the bitmap.
    closed spec fn view(&self) -> Seq<u8> {
        self.bitmap@
    }
}

impl Selector {
    pub closed spec fn wf(&self) -> bool {
        &&& self.bitmap.wf()
        &&& self.bitmap@.len() <= MAX_WORDS
        &&& index_ok(self.free@, self.bitmap@)
    }

    /// The bytes of the bitmap file, checksum first.
    pub closed spec fn image(&self) -> Seq<u8> {
        self.bitmap.image()
    }

    /// Whether identifier `idx` is in use.
    pub open spec fn used(&self, idx: int) -> bool {
        bit_at(self@, idx)
    }

    /// The smallest identifier not in use.
    pub open spec fn first_vacant(&self, r: int) -> bool {
        &&& !self.used(r)
        &&& all_set_below(self@, r)
    }

    /// An allocator over `bitmap`, which may hold at most `MAX_WORDS` words.
    pub fn new(bitmap: Bitmap) -> (r: Selector)
        requires
            bitmap.wf(),
            bitmap@.len() <= MAX_WORDS,
        ensures
            r.wf(),
            r@ == bitmap@,
    {
        let mut free: BTreeSet<usize> = BTreeSet::new();
        let n = bitmap.len();
        let mut w: usize = 0;
        while w < n
            invariant
                bitmap.wf(),
                n == bitmap@.len(),
                w <= n,
                forall|x: usize| free@.contains(x) <==> (x < w && bitmap@[x as int] != FULL_WORD),
            decreases n - w,
        {
            if bitmap.get_word(w) < FULL_WORD {
                free.insert(w);
            }
            w = w + 1;
        }
        Selector { bitmap, free }
    }

    /// The bitmap underneath.
    pub fn bitmap(&self) -> (r: &Bitmap)
        ensures
            r@ == self@,
            r.image() == self.image(),
            self.wf() ==> r.wf(),
    {
        &self.bitmap
    }

    /// Number of words in the index of words with a clear bit.
    pub fn free_len(&self) -> (r: usize)
        requires
            self.wf(),
        ensures
            r == Set::new(|w: usize| w < self@.len() && self@[w as int] != FULL_WORD).len(),
    {
        proof {
            assert(self.free@ =~= Set::new(|w: usize| w < self@.len() && self@[w as int]
                != FULL_WORD));
        }
        self.free.len()
    }

    /// The smallest identifier whose bit is clear: found through the first indexed word,
    /// or just past the payload when every word is full.
    pub fn vacant(&self) -> (r: usize)
        requires
            self.wf(),
        ensures
            self.first_vacant(r as int),
            r <= self@.len() * 8,
    {
        let p = Ghost(self@);
        if let Some(word_idx) = first(&self.free) {
            let word = self.bitmap.get_word(word_idx);
            let mut k: usize = 0;
            while k < BITS_PER_WORD && word & word_mask(k) != 0
                invariant
                    k <= 8,
                    word == p@[word_idx as int],
                    word_idx < p@.len(),
                    forall|j: u8| j < k ==> #[trigger] (word & mask_of(j)) != 0,
                decreases 8 - k,
            {
                k = k + 1;
            }
            if k == BITS_PER_WORD {
                proof {
                    assert forall|j: u8| j < 8 implies #[trigger] (word & mask_of(j)) != 0 by {}
                    crate::bitmap::lemma_full_word(word);
                }
            }
            assert(k < 8);
            let r = word_idx * BITS_PER_WORD + k;
            proof {
                assert forall|j: int| 0 <= j < r implies #[trigger] bit_at(p@, j) by {
                    if j / 8 < word_idx {
                        let wj = (j / 8) as usize;
                        if p@[wj as int] != FULL_WORD {
                            assert(self.free@.contains(wj));
                        }
                        lemma_full_word_bits(p@, j);
                    } else {
                        assert((j % 8) < k);
                        assert(word & mask_of((j % 8) as u8) != 0);
                    }
                }
            }
            r
        } else {
            let r = self.bitmap.len() * BITS_PER_WORD;
            proof {
                assert forall|j: int| 0 <= j < r implies #[trigger] bit_at(p@, j) by {
                    let wj = (j / 8) as usize;
                    if p@[wj as int] != FULL_WORD {
                        assert(self.free@.contains(wj));
                    }
                    lemma_full_word_bits(p@, j);
                }
            }
            r
        }
    }

    /// Marks identifier `idx` as in use.
    pub fn set_used(&mut self, idx: usize)
        requires
            old(self).wf(),
            idx < MAX_WORDS * 8,
        ensures
            final(self).wf(),
            forall|i: int| #[trigger]
                final(self).used(i) == if i == idx {
                    true
                } else {
                    old(self).used(i)
                },
    {
        self.set(idx, true);
    }

    /// Marks identifier `idx` as free; clearing a clear bit changes nothing.
    pub fn set_free(&mut self, idx: usize)
        requires
            old(self).wf(),
            idx < MAX_WORDS * 8,
        ensures
            final(self).wf(),
            forall|i: int| #[trigger]
                final(self).used(i) == if i == idx {
                    false
                } else {
                    old(self).used(i)
                },
    {
        self.set(idx, false);
    }

    fn set(&mut self, idx: usize, bit: bool)
        requires
            old(self).wf(),
            idx < MAX_WORDS * 8,
        ensures
            final(self).wf(),
            forall|i: int| #[trigger]
                bit_at(final(self)@, i) == if i == idx {
                    bit
                } else {
                    bit_at(old(self)@, i)
                },
    {
        let prev = self.bitmap.len();
        let word_idx = idx / BITS_PER_WORD;
        self.bitmap.set_bit(idx, bit);
        let ghost p = self.bitmap@;
        // Words appended by growth are zero, so each holds a clear bit.
        let mut i: usize = prev;
        while i <= word_idx
            invariant
                prev == old(self).bitmap@.len(),
                self.bitmap.wf(),
                self.bitmap@ == p,
                word_idx < MAX_WORDS,
                prev <= i <= word_idx + 1 || (i == prev && prev > word_idx),
                word_idx < p.len(),
                p.len() == if prev > word_idx { prev as int } else { word_idx + 1 },
                forall|x: usize| self.free@.contains(x) <==> (
                    (x < prev && old(self).bitmap@[x as int] != FULL_WORD) || (prev <= x < i)),
            decreases word_idx + 1 - i,
        {
            self.free.insert(i);
            i = i + 1;
        }
        if self.bitmap.get_word(word_idx) == FULL_WORD {
            self.free.remove(&word_idx);
        } else {
            self.free.insert(word_idx);
        }
        proof {
            let o = old(self).bitmap@;
            assert forall|x: usize| self.free@.contains(x) <==> (x < p.len() && p[x as int]
                != FULL_WORD) by {
                if x != word_idx && x < p.len() {
                    assert(p[x as int] == word_at(o, x as int));
                    if x >= prev {
                        assert(word_at(o, x as int) == 0);
                    }
                }
            }
        }
    }

    /// Whether identifier `idx` is in use.
    pub fn is_used(&self, idx: usize) -> (r: bool)
        requires
            self.wf(),
        ensures
            r == self.used(idx as int),
    {
        self.bitmap.get_bit(idx)
    }

    /// Compacts and writes the checksum of the bitmap: `bitmap().as_bytes()` is then the
    /// file image to persist.
    pub fn sync(&mut self)
        requires
            old(self).wf(),
        ensures
            final(self).wf(),
            final(self)@ == strip_zeros(old(self)@),
            crate::checksum::checksum_ok(final(self).image()),
    {
        self.compact();
        self.bitmap.write_checksum();
    }

    /// Drops the trailing zero words of the bitmap, and the index entries past them.
    pub fn compact(&mut self)
        requires
            old(self).wf(),
        ensures
            final(self).wf(),
            final(self)@ == strip_zeros(old(self)@),
    {
        let m = self.bitmap.len();
        self.bitmap.compact();
        let ghost o = old(self).bitmap@;
        proof {
            lemma_strip_zeros(o);
        }
        let n = self.bitmap.len();
        // Entries past the compacted payload name dropped zero words.
        let mut w: usize = n;
        while w < m
            invariant
                self.bitmap.wf(),
                n == self.bitmap@.len(),
                m == o.len(),
                self.bitmap@ == strip_zeros(o),
                n <= w <= m,
                forall|x: usize| #[trigger] self.free@.contains(x) <==> (x < o.len() && o[x as int] != FULL_WORD
                    && !(n <= x < w)),
            decreases m - w,
        {
            let ghost before = self.free@;
            self.free.remove(&w);
            assert(self.free@ == before.remove(w));
            assert forall|x: usize| #[trigger] self.free@.contains(x) <==> (x < o.len() && o[x as int]
                != FULL_WORD && !(n <= x < w + 1)) by {
                assert(self.free@.contains(x) == (before.contains(x) && x != w));
            }
            w = w + 1;
        }
        proof {
            let p = self.bitmap@;
            assert forall|x: usize| self.free@.contains(x) <==> (x < p.len() && p[x as int]
                != FULL_WORD) by {
                if x < n {
                    assert(p[x as int] == o[x as int]);
                }
            }
        }
    }
}

} // verus!
