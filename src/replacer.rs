//! Victim selection for the buffer pool. The LRU replacer keeps its candidates in
//! access order, least recent first: `insert` makes a key the most recent, `victim`
//! takes the least recent one.
use vstd::prelude::*;
use vstd::laws_eq::obeys_concrete_eq;

verus! {

/// Without `v`: `s` with the one occurrence of `v` taken out, if there is one.
pub open spec fn without<T>(s: Seq<T>, v: T) -> Seq<T> {
    if s.contains(v) {
        s.remove(s.index_of(v))
    } else {
        s
    }
}

/// Inserting `x`, then `y`, then `x` again into an empty replacer leaves `y` as the
/// next victim: the second insertion of `x` refreshes it to most recently used.
pub proof fn lemma_mru_refresh<T>(x: T, y: T)
    requires
        x != y,
    ensures
        ({
            let s1 = without(Seq::<T>::empty(), x).push(x);
            let s2 = without(s1, y).push(y);
            let s3 = without(s2, x).push(x);
            &&& s3.len() == 2
            &&& s3[0] == y
            &&& s3[1] == x
        }),
{
    let s0 = Seq::<T>::empty();
    assert(!s0.contains(x));
    let s1 = without(s0, x).push(x);
    assert(s1 =~= seq![x]);
    assert(!s1.contains(y));
    let s2 = without(s1, y).push(y);
    assert(s2 =~= seq![x, y]);
    assert(s2.contains(x) && s2[0] == x);
    assert(s2.index_of(x) == 0) by {
        let k = s2.index_of(x);
        if k == 1 {
            assert(s2[1] == y);
        }
    }
    assert(without(s2, x) =~= seq![y]);
}

/// A policy that tracks candidate keys and picks one to evict.
pub trait Replacer<T: PartialEq>: Sized {
    /// The tracked keys, the next victim first.
    spec fn candidates(&self) -> Seq<T>;

    /// Each key is tracked at most once.
    open spec fn wf(&self) -> bool {
        self.candidates().no_duplicates()
    }

    /// Tracks `val` as the most recently used key; a tracked key moves to that place.
    fn insert(&mut self, val: T)
        requires
            old(self).wf(),
            obeys_concrete_eq::<T>(),
        ensures
            final(self).wf(),
            final(self).candidates() == without(old(self).candidates(), val).push(val),
    ;

    /// Stops tracking `val`; tells whether it was tracked.
    fn erase(&mut self, val: &T) -> (r: bool)
        requires
            old(self).wf(),
            obeys_concrete_eq::<T>(),
        ensures
            final(self).wf(),
            r == old(self).candidates().contains(*val),
            final(self).candidates() == without(old(self).candidates(), *val),
    ;

    /// Takes the least recently used key, if any.
    fn victim(&mut self) -> (r: Option<T>)
        requires
            old(self).wf(),
        ensures
            final(self).wf(),
            old(self).candidates().len() == 0 ==> r is None && final(self).candidates()
                == old(self).candidates(),
            old(self).candidates().len() > 0 ==> r == Some(old(self).candidates()[0])
                && final(self).candidates() == old(self).candidates().drop_first(),
    ;

    /// Number of tracked keys.
    fn size(&self) -> (r: usize)
        ensures
            r == self.candidates().len(),
    ;
}

/// Least-recently-used replacement. The candidates are kept in a vector in access order,
/// which needs only equality of keys: the key type is generic, and a hashed or ordered map
/// of it would give no contract for keys without a verified hash and order.
pub struct LRUReplacer<T> {
    order: Vec<T>,
}

impl<T: PartialEq> LRUReplacer<T> {
    /// An empty replacer.
    pub fn new() -> (r: LRUReplacer<T>)
        ensures
            r.candidates() == Seq::<T>::empty(),
    {
        LRUReplacer { order: Vec::new() }
    }

    /// Position of `val` among the candidates, if tracked.
    fn find(&self, val: &T) -> (r: Option<usize>)
        requires
            obeys_concrete_eq::<T>(),
            self.order@.no_duplicates(),
        ensures
            r is None <==> !self.order@.contains(*val),
            r matches Some(i) ==> i < self.order@.len() && self.order@[i as int] == *val
                && i == self.order@.index_of(*val),
    {
        proof {
            reveal(obeys_concrete_eq);
        }
        let mut i: usize = 0;
        while i < self.order.len()
            invariant
                i <= self.order@.len(),
                obeys_concrete_eq::<T>(),
                self.order@.no_duplicates(),
                forall|j: int| 0 <= j < i ==> self.order@[j] != *val,
            decreases self.order@.len() - i,
        {
            proof {
                reveal(obeys_concrete_eq);
            }
            if self.order[i] == *val {
                proof {
                    let k = self.order@.index_of(*val);
                    assert(self.order@.contains(*val));
                    assert(self.order@[k] == *val);
                    if k != i {
                        assert(self.order@[k] != self.order@[i as int]);
                    }
                }
                return Some(i);
            }
            i = i + 1;
        }
        None
    }
}

impl<T: PartialEq> Default for LRUReplacer<T> {
    fn default() -> (r: LRUReplacer<T>)
        ensures
            r.candidates() == Seq::<T>::empty(),
    {
        LRUReplacer::new()
    }
}

impl<T: PartialEq> Replacer<T> for LRUReplacer<T> {
    closed spec fn candidates(&self) -> Seq<T> {
        self.order@
    }

    fn insert(&mut self, val: T) {
        match self.find(&val) {
            Some(i) => {
                self.order.remove(i);
            },
            None => {},
        }
        let ghost mid = self.order@;
        self.order.push(val);
        proof {
            assert(mid == without(old(self).order@, val));
            assert(mid.no_duplicates()) by {
                if old(self).order@.contains(val) {
                    let k = old(self).order@.index_of(val);
                    assert forall|a: int, b: int| 0 <= a < b < mid.len() implies mid[a] != mid[b] by {
                        let a0 = if a < k { a } else { a + 1 };
                        let b0 = if b < k { b } else { b + 1 };
                        assert(mid[a] == old(self).order@[a0]);
                        assert(mid[b] == old(self).order@[b0]);
                    }
                }
            }
            assert forall|a: int| 0 <= a < mid.len() implies mid[a] != val by {
                if old(self).order@.contains(val) {
                    let k = old(self).order@.index_of(val);
                    let a0 = if a < k { a } else { a + 1 };
                    assert(mid[a] == old(self).order@[a0]);
                } else {
                    assert(mid[a] == old(self).order@[a]);
                }
            }
        }
    }

    fn erase(&mut self, val: &T) -> (r: bool) {
        match self.find(val) {
            Some(i) => {
                self.order.remove(i);
                proof {
                    let o = old(self).order@;
                    let k = o.index_of(*val);
                    assert forall|a: int, b: int| 0 <= a < b < self.order@.len() implies self.order@[a] != self.order@[b] by {
                        let a0 = if a < k { a } else { a + 1 };
                        let b0 = if b < k { b } else { b + 1 };
                        assert(self.order@[a] == o[a0]);
                        assert(self.order@[b] == o[b0]);
                    }
                }
                true
            },
            None => false,
        }
    }

    fn victim(&mut self) -> (r: Option<T>) {
        if self.order.len() == 0 {
            None
        } else {
            let v = self.order.remove(0);
            assert(self.order@ =~= old(self).order@.drop_first());
            Some(v)
        }
    }

    fn size(&self) -> (r: usize) {
        self.order.len()
    }
}

} // verus!
