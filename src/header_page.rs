//! The header page: a directory from names (at most 32 bytes) to root page identifiers.
//!
//! Layout: checksum (8) | record count (4) | records of 36 bytes each: the name in a
//! 32-byte field, NUL-terminated when shorter, then the root page identifier (4).
use vstd::prelude::*;
use vstd::string::StringSliceAdditionalSpecFns;
use crate::config::{PAGE_SIZE, PageId};
use crate::error::{DbError, DbErrorKind, fails_with, already_exists, invalid_data, invalid_input,
    not_found};
use crate::reinterpret::{read_i32, read_u32, same_outside, u32_at, write_i32, write_u32};

verus! {

/// Offset of the record count.
pub const COUNT_OFFSET: usize = 8;

/// Offset of the first record.
pub const RECORDS_OFFSET: usize = 12;

/// Size of a record.
pub const RECORD_SIZE: usize = 36;

/// Size of the name field of a record.
pub const NAME_SIZE: usize = 32;

/// Most records that fit in the page.
pub const MAX_RECORDS: usize = 113;

/// Offset of record `i`.
pub open spec fn record_offset(i: int) -> int {
    RECORDS_OFFSET + i * RECORD_SIZE
}

/// The name stored in the field at `off`, from its `k`-th byte: up to the first zero byte
/// or the end of the field.
pub open spec fn name_in(s: Seq<u8>, off: int, k: int) -> Seq<u8>
    decreases NAME_SIZE - k,
{
    if k >= NAME_SIZE || k < 0 || s[off + k] == 0 {
        Seq::empty()
    } else {
        seq![s[off + k]] + name_in(s, off, k + 1)
    }
}

/// The records of a page image: name and root page identifier.
pub open spec fn records_of(s: Seq<u8>) -> Seq<(Seq<u8>, PageId)> {
    Seq::new(
        u32_at(s, COUNT_OFFSET as int) as nat,
        |i: int|
            (
                name_in(s, record_offset(i), 0),
                u32_at(s, record_offset(i) + NAME_SIZE) as i32,
            ),
    )
}

/// Index of the first record named `name`.
pub open spec fn first_named(recs: Seq<(Seq<u8>, PageId)>, name: Seq<u8>, i: int) -> bool {
    &&& 0 <= i < recs.len()
    &&& recs[i].0 == name
    &&& forall|j: int| 0 <= j < i ==> recs[j].0 != name
}

proof fn lemma_name_in_prefix(s: Seq<u8>, off: int, k: int)
    requires
        0 <= k <= NAME_SIZE,
        0 <= off,
        off + NAME_SIZE <= s.len(),
        forall|j: int| off <= j < off + k ==> s[j] != 0,
    ensures
        name_in(s, off, 0) == s.subrange(off, off + k) + name_in(s, off, k),
    decreases k,
{
    if k > 0 {
        lemma_name_in_prefix(s, off, k - 1);
        assert(name_in(s, off, k - 1) == seq![s[off + k - 1]] + name_in(s, off, k));
        assert(s.subrange(off, off + k - 1) + seq![s[off + k - 1]] =~= s.subrange(off, off + k));
        assert(s.subrange(off, off + k - 1) + (seq![s[off + k - 1]] + name_in(s, off, k)) =~= s.subrange(off, off + k) + name_in(s, off, k));
    } else {
        assert(s.subrange(off, off) =~= Seq::<u8>::empty());
        assert(Seq::<u8>::empty() + name_in(s, off, 0) =~= name_in(s, off, 0));
    }
}

proof fn lemma_name_in_frame(s: Seq<u8>, t: Seq<u8>, off: int, k: int)
    requires
        0 <= k <= NAME_SIZE,
        0 <= off,
        off + NAME_SIZE <= s.len(),
        off + NAME_SIZE <= t.len(),
        forall|j: int| off <= j < off + NAME_SIZE ==> s[j] == t[j],
    ensures
        name_in(s, off, k) == name_in(t, off, k),
    decreases NAME_SIZE - k,
{
    if k < NAME_SIZE {
        lemma_name_in_frame(s, t, off, k + 1);
    }
}

proof fn lemma_name_in_shift(s: Seq<u8>, t: Seq<u8>, off: int, off2: int, k: int)
    requires
        0 <= k <= NAME_SIZE,
        0 <= off,
        0 <= off2,
        off + NAME_SIZE <= s.len(),
        off2 + NAME_SIZE <= t.len(),
        forall|j: int| off <= j < off + NAME_SIZE ==> s[j] == t[j - off + off2],
    ensures
        name_in(s, off, k) == name_in(t, off2, k),
    decreases NAME_SIZE - k,
{
    if k < NAME_SIZE {
        lemma_name_in_shift(s, t, off, off2, k + 1);
    }
}

/// Whether the name field at `off` holds `name`.
fn name_matches(data: &[u8], off: usize, name: &[u8]) -> (r: bool)
    requires
        off + NAME_SIZE <= data@.len(),
    ensures
        r == (name_in(data@, off as int, 0) == name@),
{
    let dl = data.len();
    let mut k: usize = 0;
    while k < NAME_SIZE && k < name.len()
        invariant
            dl == data@.len(),
            k <= NAME_SIZE,
            k <= name@.len(),
            off + NAME_SIZE <= data@.len(),
            forall|j: int| 0 <= j < k ==> data@[off + j] == name@[j],
            forall|j: int| off <= j < off + k ==> data@[j] != 0,
        decreases NAME_SIZE - k,
    {
        if data[off + k] == 0 || data[off + k] != name[k] {
            proof {
                lemma_name_in_prefix(data@, off as int, k as int);
                let n = name_in(data@, off as int, 0);
                if data@[off + k] == 0 {
                    assert(n.len() == k);
                } else {
                    assert(n[k as int] == data@[off + k]);
                }
            }
            return false;
        }
        k = k + 1;
    }
    proof {
        lemma_name_in_prefix(data@, off as int, k as int);
        assert(data@.subrange(off as int, off + k) =~= name@.subrange(0, k as int));
    }
    if k == name.len() {
        if k == NAME_SIZE || data[off + k] == 0 {
            proof {
                assert(name@.subrange(0, k as int) =~= name@);
                assert(name@ + Seq::<u8>::empty() =~= name@);
            }
            true
        } else {
            proof {
                assert(name_in(data@, off as int, 0).len() > name@.len());
            }
            false
        }
    } else {
        proof {
            assert(name_in(data@, off as int, 0).len() == NAME_SIZE);
        }
        false
    }
}

/// The header page.
pub struct HeaderPage {
    data: Vec<u8>,
}

impl HeaderPage {
    pub closed spec fn wf(&self) -> bool {
        &&& self.data@.len() == PAGE_SIZE
        &&& u32_at(self.data@, COUNT_OFFSET as int) <= MAX_RECORDS
    }

    /// The records, in order of insertion.
    pub closed spec fn records(&self) -> Seq<(Seq<u8>, PageId)> {
        records_of(self.data@)
    }

    /// A page of zeros: no records.
    pub fn new() -> (r: HeaderPage)
        ensures
            r.wf(),
            r.records() == Seq::<(Seq<u8>, PageId)>::empty(),
    {
        let data = vec![0u8; PAGE_SIZE];
        let r = HeaderPage { data };
        assert(u32_at(r.data@, 8) == 0) by {
            let (b0, b1, b2, b3) = (r.data@[8], r.data@[9], r.data@[10], r.data@[11]);
            assert((b0 as u32) | ((b1 as u32) << 8u32) | ((b2 as u32) << 16u32) | ((b3 as u32)
                << 24u32) == 0) by (bit_vector)
                requires
                    b0 == 0 && b1 == 0 && b2 == 0 && b3 == 0,
            ;
        }
        assert(r.records() =~= Seq::<(Seq<u8>, PageId)>::empty());
        r
    }

    /// Empties the directory.
    pub fn init(&mut self)
        requires
            old(self).wf(),
        ensures
            final(self).wf(),
            final(self).records() == Seq::<(Seq<u8>, PageId)>::empty(),
    {
        self.set_record_count(0);
        assert(self.records() =~= Seq::<(Seq<u8>, PageId)>::empty());
    }

    /// Number of records.
    pub fn record_count(&self) -> (r: usize)
        requires
            self.wf(),
        ensures
            r == self.records().len(),
    {
        read_u32(self.data.as_slice(), COUNT_OFFSET) as usize
    }

    fn set_record_count(&mut self, record_count: usize)
        requires
            old(self).wf(),
            record_count <= MAX_RECORDS,
        ensures
            final(self).data@.len() == PAGE_SIZE,
            same_outside(old(self).data@, final(self).data@, COUNT_OFFSET as int, COUNT_OFFSET + 4),
            u32_at(final(self).data@, COUNT_OFFSET as int) == record_count,
            final(self).wf(),
    {
        write_u32(self.data.as_mut_slice(), COUNT_OFFSET, record_count as u32);
    }

    fn validate_name(name: &str) -> (r: Result<(), DbError>)
        ensures
            r is Ok <==> name.spec_bytes().len() <= NAME_SIZE,
            r is Err ==> fails_with(r, DbErrorKind::InvalidInput),
    {
        if name.as_bytes().len() > NAME_SIZE {
            Err(invalid_input("Name length should be <= 32"))
        } else {
            Ok(())
        }
    }

    /// Index of the first record named `name`.
    fn find_record(&self, name: &str) -> (r: Result<usize, DbError>)
        requires
            self.wf(),
        ensures
            r matches Ok(i) ==> first_named(self.records(), name.spec_bytes(), i as int),
            r is Err ==> fails_with(r, DbErrorKind::NotFound) && forall|j: int|
                0 <= j < self.records().len() ==> self.records()[j].0 != name.spec_bytes(),
    {
        let count = self.record_count();
        let bytes = name.as_bytes();
        let mut i: usize = 0;
        while i < count
            invariant
                self.wf(),
                count == self.records().len(),
                count <= MAX_RECORDS,
                bytes@ == name.spec_bytes(),
                i <= count,
                forall|j: int| 0 <= j < i ==> self.records()[j].0 != name.spec_bytes(),
            decreases count - i,
        {
            let offset = RECORDS_OFFSET + i * RECORD_SIZE;
            if name_matches(self.data.as_slice(), offset, bytes) {
                return Ok(i);
            }
            i = i + 1;
        }
        Err(not_found("Record not found"))
    }

    /// Adds a record for `name`, which must be new and at most 32 bytes long.
    pub fn insert_record(&mut self, name: &str, root_id: PageId) -> (r: Result<(), DbError>)
        requires
            old(self).wf(),
        ensures
            final(self).wf(),
            name.spec_bytes().len() > NAME_SIZE ==> fails_with(r, DbErrorKind::InvalidInput),
            name.spec_bytes().len() <= NAME_SIZE && (exists|j: int|
                0 <= j < old(self).records().len() && #[trigger] old(self).records()[j].0
                    == name.spec_bytes()) ==> fails_with(r, DbErrorKind::AlreadyExists),
            r is Ok <==> name.spec_bytes().len() <= NAME_SIZE && (forall|j: int|
                0 <= j < old(self).records().len() ==> #[trigger] old(self).records()[j].0
                    != name.spec_bytes()) && old(self).records().len() < MAX_RECORDS,
            r is Ok ==> final(self).records() == old(self).records().push(
                (name_in_bytes(name.spec_bytes()), root_id),
            ),
            r is Err ==> final(self).records() == old(self).records(),
    {
        match Self::validate_name(name) {
            Ok(()) => {},
            Err(e) => {
                return Err(e);
            },
        }
        match self.find_record(name) {
            Ok(_) => {
                return Err(already_exists("Record exists"));
            },
            Err(_) => {},
        }
        let count = self.record_count();
        if count >= MAX_RECORDS {
            return Err(invalid_data("The header page is full"));
        }
        let offset = RECORDS_OFFSET + count * RECORD_SIZE;
        let ghost d0 = self.data@;
        self.write_name(offset, name.as_bytes());
        let ghost d1 = self.data@;
        write_i32(self.data.as_mut_slice(), offset + NAME_SIZE, root_id);
        let ghost d2 = self.data@;
        self.set_record_count(count + 1);
        proof {
            let d3 = self.data@;
            let old_recs = records_of(d0);
            let new_recs = records_of(d3);
            assert(u32_at(d3, 8) == count + 1);
            assert forall|j: int| 0 <= j < count implies #[trigger] new_recs[j] == old_recs[j] by {
                lemma_name_in_frame(d0, d3, record_offset(j), 0);
                let o = record_offset(j) + NAME_SIZE;
                assert(d3[o] == d0[o] && d3[o + 1] == d0[o + 1] && d3[o + 2] == d0[o + 2] && d3[o + 3] == d0[o + 3]);
            }
            lemma_name_in_frame(d1, d3, offset as int, 0);
            assert(new_recs =~= old_recs.push((name_in_bytes(name.spec_bytes()), root_id)));
        }
        Ok(())
    }


    /// Sets the root page identifier of the record named `name`.
    pub fn update_record(&mut self, name: &str, root_id: PageId) -> (r: Result<(), DbError>)
        requires
            old(self).wf(),
        ensures
            final(self).wf(),
            name.spec_bytes().len() > NAME_SIZE ==> fails_with(r, DbErrorKind::InvalidInput),
            name.spec_bytes().len() <= NAME_SIZE && (forall|j: int|
                0 <= j < old(self).records().len() ==> #[trigger] old(self).records()[j].0
                    != name.spec_bytes()) ==> fails_with(r, DbErrorKind::NotFound),
            r is Ok <==> name.spec_bytes().len() <= NAME_SIZE && exists|j: int|
                0 <= j < old(self).records().len() && #[trigger] old(self).records()[j].0
                    == name.spec_bytes(),
            r is Ok ==> exists|i: int|
                first_named(old(self).records(), name.spec_bytes(), i) && final(self).records()
                    == old(self).records().update(i, (name.spec_bytes(), root_id)),
            r is Err ==> final(self).records() == old(self).records(),
    {
        match Self::validate_name(name) {
            Ok(()) => {},
            Err(e) => {
                return Err(e);
            },
        }
        let idx = match self.find_record(name) {
            Ok(i) => i,
            Err(e) => {
                return Err(e);
            },
        };
        let offset = RECORDS_OFFSET + idx * RECORD_SIZE;
        let ghost d0 = self.data@;
        write_i32(self.data.as_mut_slice(), offset + NAME_SIZE, root_id);
        proof {
            let d1 = self.data@;
            let old_recs = records_of(d0);
            let new_recs = records_of(d1);
            assert(u32_at(d1, 8) == u32_at(d0, 8));
            assert forall|j: int| 0 <= j < old_recs.len() && j != idx implies #[trigger] new_recs[j] == old_recs[j] by {
                lemma_name_in_frame(d0, d1, record_offset(j), 0);
                let o = record_offset(j) + NAME_SIZE;
                assert(d1[o] == d0[o] && d1[o + 1] == d0[o + 1] && d1[o + 2] == d0[o + 2] && d1[o + 3] == d0[o + 3]);
            }
            lemma_name_in_frame(d0, d1, offset as int, 0);
            assert(new_recs =~= old_recs.update(idx as int, (name.spec_bytes(), root_id)));
        }
        Ok(())
    }

    /// The root page identifier of the record named `name`.
    pub fn root_id(&self, name: &str) -> (r: Result<PageId, DbError>)
        requires
            self.wf(),
        ensures
            name.spec_bytes().len() > NAME_SIZE ==> fails_with(r, DbErrorKind::InvalidInput),
            name.spec_bytes().len() <= NAME_SIZE && (forall|j: int|
                0 <= j < self.records().len() ==> #[trigger] self.records()[j].0
                    != name.spec_bytes()) ==> fails_with(r, DbErrorKind::NotFound),
            r matches Ok(v) ==> exists|i: int|
                first_named(self.records(), name.spec_bytes(), i) && v == self.records()[i].1,
            r is Ok <==> name.spec_bytes().len() <= NAME_SIZE && exists|j: int|
                0 <= j < self.records().len() && #[trigger] self.records()[j].0
                    == name.spec_bytes(),
    {
        match Self::validate_name(name) {
            Ok(()) => {},
            Err(e) => {
                return Err(e);
            },
        }
        let idx = match self.find_record(name) {
            Ok(i) => i,
            Err(e) => {
                return Err(e);
            },
        };
        let offset = RECORDS_OFFSET + idx * RECORD_SIZE + NAME_SIZE;
        Ok(read_i32(self.data.as_slice(), offset))
    }


    /// Removes the record named `name`; the records after it move up by one.
    pub fn delete_record(&mut self, name: &str) -> (r: Result<(), DbError>)
        requires
            old(self).wf(),
        ensures
            final(self).wf(),
            name.spec_bytes().len() > NAME_SIZE ==> fails_with(r, DbErrorKind::InvalidInput),
            name.spec_bytes().len() <= NAME_SIZE && (forall|j: int|
                0 <= j < old(self).records().len() ==> #[trigger] old(self).records()[j].0
                    != name.spec_bytes()) ==> fails_with(r, DbErrorKind::NotFound),
            r is Ok <==> name.spec_bytes().len() <= NAME_SIZE && exists|j: int|
                0 <= j < old(self).records().len() && #[trigger] old(self).records()[j].0
                    == name.spec_bytes(),
            r is Ok ==> exists|i: int|
                first_named(old(self).records(), name.spec_bytes(), i) && final(self).records()
                    == old(self).records().remove(i),
            r is Err ==> final(self).records() == old(self).records(),
    {
        match Self::validate_name(name) {
            Ok(()) => {},
            Err(e) => {
                return Err(e);
            },
        }
        let idx = match self.find_record(name) {
            Ok(i) => i,
            Err(e) => {
                return Err(e);
            },
        };
        let count = self.record_count();
        let start = RECORDS_OFFSET + idx * RECORD_SIZE;
        let end = RECORDS_OFFSET + (count - 1) * RECORD_SIZE;
        let ghost d0 = self.data@;
        let mut b: usize = start;
        while b < end
            invariant
                self.data@.len() == PAGE_SIZE,
                start <= b <= end,
                end + RECORD_SIZE <= PAGE_SIZE,
                forall|p: int| 0 <= p < start ==> self.data@[p] == d0[p],
                forall|p: int| b <= p < PAGE_SIZE ==> self.data@[p] == d0[p],
                forall|p: int| start <= p < b ==> self.data@[p] == d0[p + RECORD_SIZE],
            decreases end - b,
        {
            let v = self.data[b + RECORD_SIZE];
            self.data.set(b, v);
            b = b + 1;
        }
        let ghost d1 = self.data@;
        self.set_record_count(count - 1);
        proof {
            let d2 = self.data@;
            let old_recs = records_of(d0);
            let new_recs = records_of(d2);
            assert(new_recs.len() == old_recs.len() - 1);
            assert forall|j: int| 0 <= j < new_recs.len() implies #[trigger] new_recs[j] == if j < idx {
                old_recs[j]
            } else {
                old_recs[j + 1]
            } by {
                let o = record_offset(j);
                let src = if j < idx { o } else { o + RECORD_SIZE };
                assert forall|p: int| o <= p < o + RECORD_SIZE implies d2[p] == d0[p - o + src] by {}
                lemma_name_in_shift(d2, d0, o, src, 0);
                let q = o + NAME_SIZE;
                let q0 = src + NAME_SIZE;
                assert(d2[q] == d0[q0] && d2[q + 1] == d0[q0 + 1] && d2[q + 2] == d0[q0 + 2] && d2[q + 3] == d0[q0 + 3]);
            }
            assert(new_recs =~= old_recs.remove(idx as int));
        }
        Ok(())
    }

    /// Stores `name` in the name field at `off`, with a terminating zero when shorter.
    fn write_name(&mut self, off: usize, name: &[u8])
        requires
            old(self).wf(),
            name@.len() <= NAME_SIZE,
            off + NAME_SIZE + 4 <= PAGE_SIZE,
            off >= RECORDS_OFFSET,
        ensures
            final(self).data@.len() == PAGE_SIZE,
            same_outside(old(self).data@, final(self).data@, off as int, off + NAME_SIZE),
            name_in(final(self).data@, off as int, 0) == name_in_bytes(name@),
    {
        let mut k: usize = 0;
        while k < name.len()
            invariant
                self.data@.len() == PAGE_SIZE,
                k <= name@.len(),
                name@.len() <= NAME_SIZE,
                off + NAME_SIZE + 4 <= PAGE_SIZE,
                same_outside(old(self).data@, self.data@, off as int, off + NAME_SIZE),
                forall|j: int| 0 <= j < k ==> self.data@[off + j] == name@[j],
            decreases name@.len() - k,
        {
            self.data.set(off + k, name[k]);
            k = k + 1;
        }
        if name.len() < NAME_SIZE {
            self.data.set(off + name.len(), 0);
        }
        proof {
            lemma_name_written(self.data@, off as int, name@, 0);
            assert(name@.subrange(0, name@.len() as int) =~= name@);
        }
    }
}

/// The name that reads back from a field holding `name`: its bytes up to the first zero.
pub open spec fn name_in_bytes(name: Seq<u8>) -> Seq<u8>
    decreases name.len(),
{
    if name.len() == 0 || name[0] == 0 {
        Seq::empty()
    } else {
        seq![name[0]] + name_in_bytes(name.drop_first())
    }
}

proof fn lemma_name_written(s: Seq<u8>, off: int, name: Seq<u8>, k: int)
    requires
        0 <= k <= name.len() <= NAME_SIZE,
        0 <= off,
        off + NAME_SIZE <= s.len(),
        forall|j: int| 0 <= j < name.len() ==> s[off + j] == name[j],
        name.len() < NAME_SIZE ==> s[off + name.len()] == 0,
    ensures
        name_in(s, off, k) == name_in_bytes(name.subrange(k, name.len() as int)),
    decreases name.len() - k,
{
    let rest = name.subrange(k, name.len() as int);
    if k < name.len() {
        lemma_name_written(s, off, name, k + 1);
        assert(rest.drop_first() =~= name.subrange(k + 1, name.len() as int));
    } else {
        assert(rest.len() == 0);
    }
}

} // verus!
