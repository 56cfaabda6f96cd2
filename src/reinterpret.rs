//! Little-endian integers and NUL-terminated strings stored inside byte buffers.
use vstd::prelude::*;
use vstd::string::StringSliceAdditionalSpecFns;

verus! {

/// The `u32` whose little-endian bytes are `s[off..off + 4]`.
pub open spec fn u32_at(s: Seq<u8>, off: int) -> u32 {
    (s[off] as u32) | ((s[off + 1] as u32) << 8u32) | ((s[off + 2] as u32) << 16u32) | ((
    s[off + 3] as u32) << 24u32)
}

/// The `u64` whose little-endian bytes are `s[off..off + 8]`.
pub open spec fn u64_at(s: Seq<u8>, off: int) -> u64 {
    (s[off] as u64) | ((s[off + 1] as u64) << 8u64) | ((s[off + 2] as u64) << 16u64) | ((s[off
        + 3] as u64) << 24u64) | ((s[off + 4] as u64) << 32u64) | ((s[off + 5] as u64) << 40u64)
        | ((s[off + 6] as u64) << 48u64) | ((s[off + 7] as u64) << 56u64)
}

/// `new` equals `old` outside of `[lo, hi)` and has the same length.
pub open spec fn same_outside(old: Seq<u8>, new: Seq<u8>, lo: int, hi: int) -> bool {
    &&& new.len() == old.len()
    &&& forall|i: int| 0 <= i < old.len() && !(lo <= i < hi) ==> new[i] == old[i]
}

pub fn read_u32(data: &[u8], offset: usize) -> (r: u32)
    requires
        offset + 4 <= data@.len(),
    ensures
        r == u32_at(data@, offset as int),
{
    (data[offset] as u32) | ((data[offset + 1] as u32) << 8u32) | ((data[offset + 2] as u32)
        << 16u32) | ((data[offset + 3] as u32) << 24u32)
}

pub fn write_u32(data: &mut [u8], offset: usize, num: u32)
    requires
        offset + 4 <= old(data)@.len(),
    ensures
        same_outside(old(data)@, final(data)@, offset as int, offset + 4),
        u32_at(final(data)@, offset as int) == num,
{
    let b0 = (num & 0xff) as u8;
    let b1 = ((num >> 8u32) & 0xff) as u8;
    let b2 = ((num >> 16u32) & 0xff) as u8;
    let b3 = ((num >> 24u32) & 0xff) as u8;
    data[offset] = b0;
    data[offset + 1] = b1;
    data[offset + 2] = b2;
    data[offset + 3] = b3;
    assert((b0 as u32) | ((b1 as u32) << 8u32) | ((b2 as u32) << 16u32) | ((b3 as u32)
        << 24u32) == num) by (bit_vector)
        requires
            b0 == (num & 0xff) as u8,
            b1 == ((num >> 8u32) & 0xff) as u8,
            b2 == ((num >> 16u32) & 0xff) as u8,
            b3 == ((num >> 24u32) & 0xff) as u8,
    ;
}

pub fn read_u64(data: &[u8], offset: usize) -> (r: u64)
    requires
        offset + 8 <= data@.len(),
    ensures
        r == u64_at(data@, offset as int),
{
    (data[offset] as u64) | ((data[offset + 1] as u64) << 8u64) | ((data[offset + 2] as u64)
        << 16u64) | ((data[offset + 3] as u64) << 24u64) | ((data[offset + 4] as u64) << 32u64)
        | ((data[offset + 5] as u64) << 40u64) | ((data[offset + 6] as u64) << 48u64) | ((
    data[offset + 7] as u64) << 56u64)
}

pub fn write_u64(data: &mut [u8], offset: usize, num: u64)
    requires
        offset + 8 <= old(data)@.len(),
    ensures
        same_outside(old(data)@, final(data)@, offset as int, offset + 8),
        u64_at(final(data)@, offset as int) == num,
{
    let b0 = (num & 0xff) as u8;
    let b1 = ((num >> 8u64) & 0xff) as u8;
    let b2 = ((num >> 16u64) & 0xff) as u8;
    let b3 = ((num >> 24u64) & 0xff) as u8;
    let b4 = ((num >> 32u64) & 0xff) as u8;
    let b5 = ((num >> 40u64) & 0xff) as u8;
    let b6 = ((num >> 48u64) & 0xff) as u8;
    let b7 = ((num >> 56u64) & 0xff) as u8;
    data[offset] = b0;
    data[offset + 1] = b1;
    data[offset + 2] = b2;
    data[offset + 3] = b3;
    data[offset + 4] = b4;
    data[offset + 5] = b5;
    data[offset + 6] = b6;
    data[offset + 7] = b7;
    assert((b0 as u64) | ((b1 as u64) << 8u64) | ((b2 as u64) << 16u64) | ((b3 as u64)
        << 24u64) | ((b4 as u64) << 32u64) | ((b5 as u64) << 40u64) | ((b6 as u64) << 48u64) | ((
    b7 as u64) << 56u64) == num) by (bit_vector)
        requires
            b0 == (num & 0xff) as u8,
            b1 == ((num >> 8u64) & 0xff) as u8,
            b2 == ((num >> 16u64) & 0xff) as u8,
            b3 == ((num >> 24u64) & 0xff) as u8,
            b4 == ((num >> 32u64) & 0xff) as u8,
            b5 == ((num >> 40u64) & 0xff) as u8,
            b6 == ((num >> 48u64) & 0xff) as u8,
            b7 == ((num >> 56u64) & 0xff) as u8,
    ;
}

pub fn read_i32(data: &[u8], offset: usize) -> (r: i32)
    requires
        offset + 4 <= data@.len(),
    ensures
        r == u32_at(data@, offset as int) as i32,
{
    read_u32(data, offset) as i32
}

pub fn write_i32(data: &mut [u8], offset: usize, num: i32)
    requires
        offset + 4 <= old(data)@.len(),
    ensures
        same_outside(old(data)@, final(data)@, offset as int, offset + 4),
        u32_at(final(data)@, offset as int) as i32 == num,
{
    let u = num as u32;
    write_u32(data, offset, u);
    assert(u as i32 == num) by (bit_vector)
        requires
            u == num as u32,
    ;
}

/// The bytes of `s` from `off` up to (excluding) the first zero byte, or to the end.
pub open spec fn cstr_at(s: Seq<u8>, off: int) -> Seq<u8>
    decreases s.len() - off,
{
    if off < 0 || off >= s.len() || s[off] == 0 {
        Seq::empty()
    } else {
        seq![s[off]] + cstr_at(s, off + 1)
    }
}

proof fn lemma_cstr_at(s: Seq<u8>, off: int, end: int)
    requires
        0 <= off <= end <= s.len(),
        forall|i: int| off <= i < end ==> s[i] != 0,
        end == s.len() || s[end] == 0,
    ensures
        cstr_at(s, off) == s.subrange(off, end),
    decreases end - off,
{
    if off < end {
        lemma_cstr_at(s, off + 1, end);
        assert(cstr_at(s, off) =~= s.subrange(off, end));
    } else {
        assert(s.subrange(off, end) =~= Seq::<u8>::empty());
    }
}

/// Reads the NUL-terminated string stored from `offset` on, as bytes.
pub fn read_str(data: &[u8], offset: usize) -> (r: Vec<u8>)
    requires
        offset <= data@.len(),
    ensures
        r@ == cstr_at(data@, offset as int),
{
    let mut out: Vec<u8> = Vec::new();
    let mut i: usize = offset;
    while i < data.len() && data[i] != 0
        invariant
            offset <= i <= data@.len(),
            forall|j: int| offset <= j < i ==> data@[j] != 0,
            out@ == data@.subrange(offset as int, i as int),
        decreases data@.len() - i,
    {
        out.push(data[i]);
        i = i + 1;
        assert(out@ =~= data@.subrange(offset as int, i as int));
    }
    proof {
        lemma_cstr_at(data@, offset as int, i as int);
    }
    out
}

/// The buffer after `name` is stored at `off`: as many of its bytes as fit, then a zero
/// terminator where there is room for one.
pub open spec fn str_stored(old: Seq<u8>, new: Seq<u8>, off: int, name: Seq<u8>) -> bool {
    let n = if name.len() < old.len() - off { name.len() as int } else { old.len() - off };
    let end = if name.len() < old.len() - off { off + name.len() + 1 } else { old.len() as int };
    &&& same_outside(old, new, off, end)
    &&& forall|i: int| 0 <= i < n ==> new[off + i] == name[i]
    &&& name.len() < old.len() - off ==> new[off + name.len()] == 0
}

/// Stores `name` at `offset`, truncated to the room left, with a zero terminator where
/// there is room for one.
pub fn write_str(data: &mut [u8], offset: usize, name: &str)
    requires
        offset <= old(data)@.len(),
    ensures
        str_stored(old(data)@, final(data)@, offset as int, name.spec_bytes()),
{
    let bytes = name.as_bytes();
    let len = data.len();
    let room = len - offset;
    let n = if bytes.len() < room { bytes.len() } else { room };
    let mut i: usize = 0;
    while i < n
        invariant
            n <= bytes@.len(),
            data@.len() == old(data)@.len(),
            len == old(data)@.len(),
            offset + n <= len,
            bytes@ == name.spec_bytes(),
            same_outside(old(data)@, data@, offset as int, offset + i),
            forall|j: int| 0 <= j < i ==> data@[offset + j] == bytes@[j],
            i <= n,
        decreases n - i,
    {
        data[offset + i] = bytes[i];
        i = i + 1;
    }
    if bytes.len() < room {
        data[offset + bytes.len()] = 0;
    }
}

} // verus!
