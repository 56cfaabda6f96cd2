//! Tuples as byte strings, and their framing: an eight-byte length, then the bytes.
use vstd::prelude::*;
use crate::reinterpret::{read_u64, u64_at, write_u64};

verus! {

/// A tuple: its serialized bytes.
#[derive(Debug, PartialEq)]
pub struct Tuple {
    data: Vec<u8>,
}

impl View for Tuple {
    type V = Seq<u8>;

    closed spec fn view(&self) -> Seq<u8> {
        self.data@
    }
}

impl Default for Tuple {
    fn default() -> (r: Tuple)
        ensures
            r@ == Seq::<u8>::empty(),
    {
        Tuple { data: Vec::new() }
    }
}

impl Tuple {
    /// The tuple with bytes `data`.
    pub fn from_data(data: Vec<u8>) -> (r: Tuple)
        ensures
            r@ == data@,
    {
        Tuple { data }
    }

    /// The bytes.
    pub fn data(&self) -> (r: &[u8])
        ensures
            r@ == self@,
    {
        self.data.as_slice()
    }

    /// Number of bytes.
    pub fn len(&self) -> (r: usize)
        ensures
            r == self@.len(),
    {
        self.data.len()
    }

    /// Writes the length, then the bytes, at the start of `dst`.
    pub fn serialize_to(&self, dst: &mut [u8])
        requires
            8 + self@.len() <= old(dst)@.len(),
        ensures
            final(dst)@.len() == old(dst)@.len(),
            u64_at(final(dst)@, 0) == self@.len(),
            final(dst)@.subrange(8, 8 + self@.len() as int) == self@,
            forall|i: int| 8 + self@.len() <= i < old(dst)@.len() ==> final(dst)@[i] == old(dst)@[i],
    {
        write_u64(dst, 0, self.data.len() as u64);
        let n = self.data.len();
        let dl = dst.len();
        let mut i: usize = 0;
        while i < n
            invariant
                n == self@.len(),
                dl == dst@.len(),
                8 + n <= dst@.len(),
                dst@.len() == old(dst)@.len(),
                i <= n,
                u64_at(dst@, 0) == n,
                forall|j: int| 0 <= j < i ==> dst@[8 + j] == self@[j],
                forall|j: int| 8 + n <= j < dst@.len() ==> dst@[j] == old(dst)@[j],
            decreases n - i,
        {
            let ghost before = dst@;
            dst[8 + i] = self.data[i];
            assert(dst@[0] == before[0] && dst@[1] == before[1] && dst@[2] == before[2] && dst@[3]
                == before[3] && dst@[4] == before[4] && dst@[5] == before[5] && dst@[6] == before[6]
                && dst@[7] == before[7]);
            i = i + 1;
        }
        assert(dst@.subrange(8, 8 + n as int) =~= self@);
    }

    /// Reads a tuple framed as by `serialize_to` from the start of `src`.
    pub fn deserialize_from(&mut self, src: &[u8])
        requires
            src@.len() >= 8,
            8 + u64_at(src@, 0) <= src@.len(),
        ensures
            final(self)@ == src@.subrange(8, 8 + u64_at(src@, 0) as int),
    {
        let sl = src.len();
        let size64 = read_u64(src, 0);
        assert(size64 <= sl);
        let size = size64 as usize;
        let mut data: Vec<u8> = Vec::new();
        let mut i: usize = 0;
        while i < size
            invariant
                sl == src@.len(),
                8 + size <= src@.len(),
                i <= size,
                data@ == src@.subrange(8, 8 + i as int),
            decreases size - i,
        {
            data.push(src[8 + i]);
            i = i + 1;
            assert(data@ =~= src@.subrange(8, 8 + i as int));
        }
        self.data = data;
    }
}

/// A tuple serialized into a buffer and read back is the same tuple.
pub proof fn lemma_tuple_round_trip(t: Seq<u8>, buf: Seq<u8>)
    requires
        u64_at(buf, 0) == t.len(),
        8 + t.len() <= buf.len(),
        buf.subrange(8, 8 + t.len() as int) == t,
    ensures
        buf.subrange(8, 8 + u64_at(buf, 0) as int) == t,
{
}

} // verus!
