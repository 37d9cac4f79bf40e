//! A growable store of optional values with O(1) index reuse: freed slots are
//! kept on a free stack, sorted so the smallest freed index is handed out
//! first. Indices are stable across operations on other slots.

use vstd::prelude::*;
use vstd::std_specs::iter::IteratorSpec;

verus! {

/// Counts the occupied (`Some`) slots of a slot sequence.
pub open spec fn num_occupied<T>(s: Seq<Option<T>>) -> nat
    decreases s.len(),
{
    if s.len() == 0 {
        0
    } else {
        num_occupied(s.drop_last()) + (if s.last() is Some {
            1nat
        } else {
            0nat
        })
    }
}

pub struct AllocatedVec<T> {
    vec: Vec<Option<T>>,
    free: Vec<usize>,
    occupied: usize,
}

impl<T> View for AllocatedVec<T> {
    type V = Seq<Option<T>>;

    closed spec fn view(&self) -> Seq<Option<T>> {
        self.vec@
    }
}

proof fn lemma_num_occupied_update<T>(s: Seq<Option<T>>, i: int, v: Option<T>)
    requires
        0 <= i < s.len(),
    ensures
        num_occupied(s.update(i, v)) == num_occupied(s) - (if s[i] is Some {
            1int
        } else {
            0int
        }) + (if v is Some {
            1int
        } else {
            0int
        }),
    decreases s.len(),
{
    if i == s.len() - 1 {
        assert(s.update(i, v).drop_last() =~= s.drop_last());
    } else {
        assert(s.update(i, v).drop_last() =~= s.drop_last().update(i, v));
        lemma_num_occupied_update(s.drop_last(), i, v);
    }
}

proof fn lemma_num_occupied_push<T>(s: Seq<Option<T>>, v: Option<T>)
    ensures
        num_occupied(s.push(v)) == num_occupied(s) + (if v is Some {
            1int
        } else {
            0int
        }),
{
    assert(s.push(v).drop_last() =~= s);
}

proof fn lemma_num_occupied_le_len<T>(s: Seq<Option<T>>)
    ensures
        num_occupied(s) <= s.len(),
    decreases s.len(),
{
    if s.len() > 0 {
        lemma_num_occupied_le_len(s.drop_last());
    }
}

proof fn lemma_num_occupied_lt_len<T>(s: Seq<Option<T>>, i: int)
    requires
        0 <= i < s.len(),
        s[i] is None,
    ensures
        num_occupied(s) < s.len(),
    decreases s.len(),
{
    if i == s.len() - 1 {
        lemma_num_occupied_le_len(s.drop_last());
    } else {
        lemma_num_occupied_lt_len(s.drop_last(), i);
    }
}

impl<T> AllocatedVec<T> {
    /// The free stack names exactly the empty slots, each once, in strictly
    /// decreasing order, and the occupied counter matches the view.
    pub closed spec fn wf(&self) -> bool {
        &&& forall|k: int|
            0 <= k < self.free@.len() ==> (#[trigger] self.free@[k]) < self.vec@.len()
                && self.vec@[self.free@[k] as int] is None
        &&& forall|k1: int, k2: int|
            0 <= k1 < k2 < self.free@.len() ==> #[trigger] self.free@[k1] > #[trigger] self.free@[k2]
        &&& forall|i: int|
            0 <= i < self.vec@.len() && (#[trigger] self.vec@[i]) is None ==> exists|k: int|
                0 <= k < self.free@.len() && self.free@[k] == i
        &&& self.occupied == num_occupied(self.vec@)
    }

    pub fn new() -> (result: AllocatedVec<T>)
        ensures
            result.wf(),
            result@ =~= Seq::<Option<T>>::empty(),
    {
        AllocatedVec { vec: Vec::new(), free: Vec::new(), occupied: 0 }
    }

    /// Stores `value` in the smallest free slot, growing the backing sequence
    /// only when no slot is free, and returns the slot's index.
    pub fn push(&mut self, value: T) -> (index: usize)
        requires
            old(self).wf(),
        ensures
            final(self).wf(),
            (index as int) <= old(self)@.len(),
            forall|j: int| 0 <= j < index as int ==> (#[trigger] old(self)@[j]) is Some,
            (index as int) < old(self)@.len() ==> old(self)@[index as int] is None && final(self)@
                =~= old(self)@.update(index as int, Some(value)),
            (index as int) == old(self)@.len() ==> final(self)@ =~= old(self)@.push(Some(value)),
            num_occupied(final(self)@) == num_occupied(old(self)@) + 1,
    {
        match self.free.pop() {
            Some(index) => {
                proof {
                    let f = old(self).free@;
                    assert(f[f.len() - 1] == index);
                    // every remaining free index is larger than the popped one,
                    // so any empty slot other than `index` lies above it
                    assert forall|j: int| 0 <= j < index as int implies (#[trigger] old(
                        self,
                    )@[j]) is Some by {
                        if old(self)@[j] is None {
                            let k = choose|k: int|
                                0 <= k < f.len() && f[k] == j;
                            assert(f[k] >= f[f.len() - 1]);
                        }
                    }
                    lemma_num_occupied_lt_len(old(self)@, index as int);
                    lemma_num_occupied_update(old(self)@, index as int, Some(value));
                }
                self.vec.set(index, Some(value));
                self.occupied = self.occupied + 1;
                proof {
                    assert forall|i: int|
                        0 <= i < self.vec@.len() && (#[trigger] self.vec@[i]) is None implies exists|
                            k: int,
                        | 0 <= k < self.free@.len() && self.free@[k] == i by {
                        let f = old(self).free@;
                        let k = choose|k: int| 0 <= k < f.len() && f[k] == i;
                        assert(k < f.len() - 1);
                        assert(self.free@[k] == i);
                    }
                }
                index
            },
            None => {
                let index = self.vec.len();
                proof {
                    lemma_num_occupied_le_len(old(self)@);
                    assert forall|j: int| 0 <= j < index as int implies (#[trigger] old(
                        self,
                    )@[j]) is Some by {
                        if old(self)@[j] is None {
                            assert(exists|k: int|
                                0 <= k < old(self).free@.len() && old(self).free@[k] == j);
                        }
                    }
                    lemma_num_occupied_push(old(self)@, Some(value));
                }
                self.vec.push(Some(value));
                // reading the length back witnesses that the grown sequence
                // still fits in usize, so the counter below cannot overflow
                let _grown_len: usize = self.vec.len();
                self.occupied = self.occupied + 1;
                index
            },
        }
    }

    /// Overwrites the value of an occupied slot in place; indices out of range
    /// and empty slots are left untouched.
    pub fn set(&mut self, index: usize, value: T)
        requires
            old(self).wf(),
        ensures
            final(self).wf(),
            (index as int) < old(self)@.len() && old(self)@[index as int] is Some ==> final(self)@
                =~= old(self)@.update(index as int, Some(value)),
            !((index as int) < old(self)@.len() && old(self)@[index as int] is Some) ==> final(self)@ == old(self)@,
    {
        if index < self.vec.len() {
            let occupied_slot = match &self.vec[index] {
                Some(_) => true,
                None => false,
            };
            if occupied_slot {
                proof {
                    lemma_num_occupied_update(old(self)@, index as int, Some(value));
                }
                self.vec.set(index, Some(value));
            }
        }
    }

    /// Reads the value stored at `index`; `None` when the index is out of
    /// range or the slot is empty. Never panics.
    pub fn get(&self, index: usize) -> (result: Option<&T>)
        ensures
            match result {
                Some(value) => (index as int) < self@.len() && self@[index as int] == Some(*value),
                None => !((index as int) < self@.len() && self@[index as int] is Some),
            },
    {
        if index < self.vec.len() {
            match &self.vec[index] {
                Some(value) => Some(value),
                None => None,
            }
        } else {
            None
        }
    }

    /// Empties the slot at `index`, puts the index back on the free stack and
    /// returns the evicted value, if any.
    pub fn remove(&mut self, index: usize) -> (result: Option<T>)
        requires
            old(self).wf(),
        ensures
            final(self).wf(),
            (index as int) < old(self)@.len() && old(self)@[index as int] is Some ==> result
                == old(self)@[index as int] && final(self)@ =~= old(self)@.update(
                index as int,
                None,
            ),
            !((index as int) < old(self)@.len() && old(self)@[index as int] is Some) ==> result
                is None && final(self)@ == old(self)@,
    {
        if index >= self.vec.len() {
            return None;
        }
        let occupied_slot = match &self.vec[index] {
            Some(_) => true,
            None => false,
        };
        if !occupied_slot {
            return None;
        }
        let mut evicted: Option<T> = None;
        self.vec.set_and_swap(index, &mut evicted);
        proof {
            lemma_num_occupied_update(old(self)@, index as int, None);
        }
        self.occupied = self.occupied - 1;

        // insert the index into the free stack, keeping it strictly decreasing
        let mut k: usize = 0;
        while k < self.free.len() && index < self.free[k]
            invariant
                k <= self.free@.len(),
                forall|j: int| 0 <= j < k ==> (#[trigger] self.free@[j]) > index,
            decreases self.free@.len() - k,
        {
            k = k + 1;
        }
        proof {
            let f = self.free@;
            if k < f.len() {
                assert(f[k as int] <= index);
                // the removed slot was occupied, so its index is not free
                assert(f[k as int] != index);
            }
        }
        self.free.insert(k, index);
        proof {
            let f = self.free@;
            let fo = old(self).free@;
            assert forall|k1: int, k2: int| 0 <= k1 < k2 < f.len() implies #[trigger] f[k1]
                > #[trigger] f[k2] by {
                if k1 < k as int && k2 > k as int {
                    assert(f[k1] == fo[k1]);
                    assert(f[k2] == fo[k2 - 1]);
                    assert(fo[k1] > fo[k2 - 1]);
                }
            }
            assert forall|i: int|
                0 <= i < self.vec@.len() && (#[trigger] self.vec@[i]) is None implies exists|
                j: int,
            | 0 <= j < f.len() && f[j] == i by {
                if i == index as int {
                    assert(f[k as int] == i);
                } else {
                    let j = choose|j: int| 0 <= j < fo.len() && fo[j] == i;
                    if j < k as int {
                        assert(f[j] == i);
                    } else {
                        assert(f[j + 1] == i);
                    }
                }
            }
        }
        evicted
    }

    /// A mutable reference to the value of an occupied slot.
    pub fn get_mut(&mut self, index: usize) -> (result: &mut T)
        requires
            old(self).wf(),
            (index as int) < old(self)@.len(),
            old(self)@[index as int] is Some,
        ensures
            final(self).wf(),
            Some(*result) == old(self)@[index as int],
            final(self)@ =~= old(self)@.update(index as int, Some(*final(result))),
    {
        proof {
            assert forall|v: T|
                num_occupied(old(self)@.update(index as int, Some(v))) == num_occupied(
                    old(self)@,
                ) by {
                lemma_num_occupied_update(old(self)@, index as int, Some(v));
            }
        }
        match &mut self.vec[index] {
            Some(value) => value,
            None => vstd::pervasive::unreached(),
        }
    }

    /// The number of occupied slots.
    pub fn len(&self) -> (result: usize)
        requires
            self.wf(),
        ensures
            result == num_occupied(self@),
    {
        self.occupied
    }

    /// An iterator over the backing sequence, holes included.
    pub fn iter(&self) -> (r: std::slice::Iter<'_, Option<T>>)
        ensures
            r.remaining() == self@.as_ref(),
    {
        self.vec.as_slice().iter()
    }

    /// The length of the backing sequence, holes included.
    pub fn raw_len(&self) -> (result: usize)
        ensures
            result == self@.len(),
    {
        self.vec.len()
    }
}

/// Index reuse law: once `remove(i)` has emptied slot `i`, the next `push`
/// hands out `i` again whenever no slot below `i` is free. `push`'s contract
/// says of its returned index `j` that every slot below `j` is occupied and
/// that `j` is either an empty slot or the end of the backing sequence; on a
/// sequence whose smallest empty slot is `i`, those conditions force `j == i`.
pub proof fn lemma_push_reuses_smallest<T>(s: Seq<Option<T>>, i: int, j: int)
    requires
        0 <= i < s.len(),
        s[i] is None,
        forall|k: int| 0 <= k < i ==> (#[trigger] s[k]) is Some,
        0 <= j <= s.len(),
        forall|k: int| 0 <= k < j ==> (#[trigger] s[k]) is Some,
        j < s.len() ==> s[j] is None,
    ensures
        j == i,
{
    if j < i {
        assert(s[j] is Some);
    }
    if i < j {
        assert(s[i] is Some);
    }
}

} // verus!
