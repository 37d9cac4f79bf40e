//! The heterogeneous value cache: one slot arena per type tag, addressed
//! through tagged handles. A handle produced for one tag never dereferences
//! as another: mismatches fail closed (`None` / no-op), never loosely.

use vstd::prelude::*;

use crate::allocated_vec::AllocatedVec;
use crate::values::Tag;
use crate::values::Value;

verus! {

/// A handle into the cache: names the per-type arena and the slot within it.
/// Two ports holding equal handles read and write the same storage cell.
#[derive(Clone, Copy, PartialEq, Eq, Structural, Debug)]
pub struct CacheIndex {
    pub type_tag: Tag,
    pub index: usize,
}

impl CacheIndex {
    pub fn new(type_tag: Tag, index: usize) -> (r: CacheIndex)
        ensures
            r == (CacheIndex { type_tag, index }),
    {
        CacheIndex { type_tag, index }
    }

    pub fn index(&self) -> (r: usize)
        ensures
            r == self.index,
    {
        self.index
    }

    /// Defensive check of the handle's tag before dereferencing.
    pub fn is_type(&self, tag: Tag) -> (r: bool)
        ensures
            r == (self.type_tag == tag),
    {
        match (self.type_tag, tag) {
            (Tag::Num, Tag::Num) => true,
            (Tag::Vec2, Tag::Vec2) => true,
            (Tag::Bool, Tag::Bool) => true,
            (Tag::Particle, Tag::Particle) => true,
            (Tag::Circle, Tag::Circle) => true,
            _ => false,
        }
    }
}

/// The position of a tag's arena in the registry.
pub open spec fn tag_idx(t: Tag) -> int {
    match t {
        Tag::Num => 0,
        Tag::Vec2 => 1,
        Tag::Bool => 2,
        Tag::Particle => 3,
        Tag::Circle => 4,
    }
}

fn tag_slot(t: Tag) -> (k: usize)
    ensures
        k as int == tag_idx(t),
        k < 5,
{
    match t {
        Tag::Num => 0,
        Tag::Vec2 => 1,
        Tag::Bool => 2,
        Tag::Particle => 3,
        Tag::Circle => 4,
    }
}

/// The abstract state of a cache: per tag, the registered arena's slots.
pub type CacheModel = Seq<Option<Seq<Option<Value>>>>;

/// What a slot holds in a cache model; `None` for an unregistered tag, an
/// out-of-range index or an empty slot.
pub open spec fn model_slot(m: CacheModel, ci: CacheIndex) -> Option<Value> {
    let k = tag_idx(ci.type_tag);
    if 0 <= k < m.len() && m[k] is Some {
        let s = m[k].unwrap();
        if ci.index < s.len() {
            s[ci.index as int]
        } else {
            None
        }
    } else {
        None
    }
}

/// The model after registering a tag: an empty arena appears where none was.
pub open spec fn model_register(m: CacheModel, t: Tag) -> CacheModel {
    let k = tag_idx(t);
    if 0 <= k < m.len() && m[k] is None {
        m.update(k, Some(Seq::<Option<Value>>::empty()))
    } else {
        m
    }
}

/// The model after overwriting a slot in place: effective only when the
/// handle's tag matches the value's tag and the slot is occupied.
pub open spec fn model_set(m: CacheModel, ci: CacheIndex, v: Value) -> CacheModel {
    let k = tag_idx(ci.type_tag);
    if ci.type_tag == v.spec_tag() && 0 <= k < m.len() && m[k] is Some {
        let s = m[k].unwrap();
        if ci.index < s.len() && s[ci.index as int] is Some {
            m.update(k, Some(s.update(ci.index as int, Some(v))))
        } else {
            m
        }
    } else {
        m
    }
}

/// Reading a slot of `model_set(m, ci, v)`: the written slot holds `v` when
/// the write was effective; every other slot reads as in `m`.
pub proof fn lemma_model_set_slot(m: CacheModel, ci: CacheIndex, v: Value, c2: CacheIndex)
    ensures
        model_slot(model_set(m, ci, v), c2) == (if c2 == ci && ci.type_tag == v.spec_tag()
            && model_slot(m, ci) is Some {
            Some(v)
        } else {
            model_slot(m, c2)
        }),
{
}

pub struct Cache {
    arenas: Vec<Option<AllocatedVec<Value>>>,
}

impl Cache {
    /// The registry holds one entry per tag; each registered arena is well
    /// formed and holds only values of its own tag.
    pub closed spec fn wf(&self) -> bool {
        &&& self.arenas@.len() == 5
        &&& forall|k: int|
            0 <= k < 5 && (#[trigger] self.arenas@[k]) is Some ==> {
                let a = self.arenas@[k].unwrap();
                a.wf() && forall|i: int|
                    0 <= i < a@.len() && (#[trigger] a@[i]) is Some ==> tag_idx(
                        a@[i].unwrap().spec_tag(),
                    ) == k
            }
    }

    /// The cache's abstract state.
    pub closed spec fn model(&self) -> CacheModel {
        Seq::new(
            self.arenas@.len(),
            |k: int|
                match self.arenas@[k] {
                    Some(a) => Some(a@),
                    None => None,
                },
        )
    }

    /// The registered arena's slots for a tag, if any.
    pub open spec fn arena_model(&self, t: Tag) -> Option<Seq<Option<Value>>> {
        let k = tag_idx(t);
        if 0 <= k < self.model().len() {
            self.model()[k]
        } else {
            None
        }
    }

    /// What the cell named by a handle holds.
    pub open spec fn slot(&self, ci: CacheIndex) -> Option<Value> {
        model_slot(self.model(), ci)
    }

    pub fn new() -> (r: Cache)
        ensures
            r.wf(),
            r.model() =~= Seq::new(5, |k: int| None::<Seq<Option<Value>>>),
            forall|ci: CacheIndex| #[trigger] r.slot(ci) is None,
            forall|t: Tag| #[trigger] r.arena_model(t) is None,
    {
        let mut arenas: Vec<Option<AllocatedVec<Value>>> = Vec::new();
        arenas.push(None);
        arenas.push(None);
        arenas.push(None);
        arenas.push(None);
        arenas.push(None);
        let r = Cache { arenas };
        proof {
            assert(r.model() =~= Seq::new(5, |k: int| None::<Seq<Option<Value>>>));
        }
        r
    }

    /// A mutable reference to a registered arena.
    fn arena_mut(&mut self, k: usize) -> (r: &mut AllocatedVec<Value>)
        requires
            k < old(self).arenas@.len(),
            old(self).arenas@[k as int] is Some,
        ensures
            *r == old(self).arenas@[k as int].unwrap(),
            final(self).arenas@ =~= old(self).arenas@.update(k as int, Some(*final(r))),
    {
        match &mut self.arenas[k] {
            Some(arena) => arena,
            None => vstd::pervasive::unreached(),
        }
    }

    /// Lazily creates the per-type arena for a tag; idempotent, and never
    /// changes what any slot holds.
    pub fn register(&mut self, t: Tag)
        requires
            old(self).wf(),
        ensures
            final(self).wf(),
            final(self).model() == model_register(old(self).model(), t),
            forall|ci: CacheIndex| #[trigger] final(self).slot(ci) == old(self).slot(ci),
            final(self).arena_model(t) is Some,
            forall|t2: Tag|
                t2 != t ==> #[trigger] final(self).arena_model(t2) == old(self).arena_model(t2),
    {
        let k = tag_slot(t);
        let missing = match &self.arenas[k] {
            Some(_) => false,
            None => true,
        };
        if missing {
            let empty: AllocatedVec<Value> = AllocatedVec::new();
            self.arenas.set(k, Some(empty));
        }
        proof {
            assert(self.model() =~~= model_register(old(self).model(), t));
            assert forall|ci: CacheIndex| #[trigger]
                self.slot(ci) == old(self).slot(ci) by {
                lemma_model_register_slot(old(self).model(), t, ci);
            }
        }
    }

    /// Stores a value in its tag's arena (auto-registering it) and returns a
    /// handle to the newly filled cell. The cell was empty before the call
    /// and no other cell changes.
    pub fn insert(&mut self, value: Value) -> (ci: CacheIndex)
        requires
            old(self).wf(),
        ensures
            final(self).wf(),
            ci.type_tag == value.spec_tag(),
            old(self).slot(ci) is None,
            final(self).slot(ci) == Some(value),
            forall|c2: CacheIndex|
                c2 != ci ==> #[trigger] final(self).slot(c2) == old(self).slot(c2),
            final(self).arena_model(ci.type_tag) is Some,
            forall|t2: Tag|
                t2 != value.spec_tag() ==> #[trigger] final(self).arena_model(t2) == old(
                    self,
                ).arena_model(t2),
    {
        let t = value.tag();
        self.register(t);
        let ghost mid = *self;
        let k = tag_slot(t);
        proof {
            assert(mid.arena_model(t) is Some);
            assert(mid.arenas@[k as int] is Some);
            assert(mid.arenas@[k as int].unwrap().wf());
        }
        let ghost a_old = mid.arenas@[k as int].unwrap()@;
        let arena = self.arena_mut(k);
        let index = arena.push(value);
        let ci = CacheIndex { type_tag: t, index };
        proof {
            let a_new = self.arenas@[k as int].unwrap()@;
            assert(self.model() =~~= mid.model().update(k as int, Some(a_new)));
            assert(mid.slot(ci) is None);
            assert(self.slot(ci) == Some(value));
            assert forall|c2: CacheIndex| c2 != ci implies #[trigger] self.slot(c2) == mid.slot(
                c2,
            ) by {
                if tag_idx(c2.type_tag) == k as int {
                    assert(c2.index != index);
                    if (c2.index as int) < a_old.len() {
                        assert(a_new[c2.index as int] == a_old[c2.index as int]);
                    }
                }
            }
            assert forall|k2: int|
                0 <= k2 < 5 && (#[trigger] self.arenas@[k2]) is Some implies {
                let a = self.arenas@[k2].unwrap();
                a.wf() && forall|i: int|
                    0 <= i < a@.len() && (#[trigger] a@[i]) is Some ==> tag_idx(
                        a@[i].unwrap().spec_tag(),
                    ) == k2
            } by {
                let a = self.arenas@[k2].unwrap();
                if k2 == k as int {
                    assert forall|i: int|
                        0 <= i < a@.len() && (#[trigger] a@[i]) is Some implies tag_idx(
                        a@[i].unwrap().spec_tag(),
                    ) == k2 by {
                        if i != index as int {
                            assert(a@[i] == a_old[i]);
                        }
                    }
                } else {
                    assert(self.arenas@[k2] == mid.arenas@[k2]);
                }
            }
        }
        ci
    }

    /// Reads the cell a handle names; `None` when the tag's arena is absent,
    /// the index is out of range or the cell is empty. Never panics.
    pub fn get(&self, cache_index: &CacheIndex) -> (r: Option<&Value>)
        ensures
            match r {
                Some(v) => self.slot(*cache_index) == Some(*v),
                None => self.slot(*cache_index) is None,
            },
    {
        let k = tag_slot(cache_index.type_tag);
        if k < self.arenas.len() {
            match &self.arenas[k] {
                Some(arena) => arena.get(cache_index.index),
                None => None,
            }
        } else {
            None
        }
    }

    /// All live values of one tag, as that tag's arena; `None` when the tag
    /// was never registered.
    pub fn get_all_of_type(&self, t: Tag) -> (r: Option<&AllocatedVec<Value>>)
        ensures
            match r {
                Some(arena) => self.arena_model(t) == Some(arena@) && (self.wf() ==> arena.wf()),
                None => self.arena_model(t) is None,
            },
    {
        let k = tag_slot(t);
        if k < self.arenas.len() {
            match &self.arenas[k] {
                Some(arena) => Some(arena),
                None => None,
            }
        } else {
            None
        }
    }

    /// Overwrites a cell in place. A no-op when the handle's tag does not
    /// match the value's tag, when the tag's arena is absent, or when the
    /// cell is not occupied.
    pub fn set(&mut self, cache_index: &CacheIndex, new_value: Value)
        requires
            old(self).wf(),
        ensures
            final(self).wf(),
            final(self).model() == model_set(old(self).model(), *cache_index, new_value),
            cache_index.type_tag == new_value.spec_tag() && old(self).slot(*cache_index) is Some
                ==> final(self).slot(*cache_index) == Some(new_value),
            !(cache_index.type_tag == new_value.spec_tag() && old(self).slot(*cache_index) is Some)
                ==> final(self).slot(*cache_index) == old(self).slot(*cache_index),
            forall|c2: CacheIndex|
                c2 != *cache_index ==> #[trigger] final(self).slot(c2) == old(self).slot(c2),
            forall|t2: Tag|
                #[trigger] final(self).arena_model(t2) is Some == old(self).arena_model(
                    t2,
                ) is Some,
    {
        let t = new_value.tag();
        if cache_index.is_type(t) {
            let k = tag_slot(cache_index.type_tag);
            let present = match &self.arenas[k] {
                Some(_) => true,
                None => false,
            };
            if present {
                let ghost mid = *self;
                let ghost a_old = mid.arenas@[k as int].unwrap()@;
                let arena = self.arena_mut(k);
                arena.set(cache_index.index, new_value);
                proof {
                    let a_new = self.arenas@[k as int].unwrap()@;
                    assert(self.model() =~~= model_set(mid.model(), *cache_index, new_value));
                    assert forall|k2: int|
                        0 <= k2 < 5 && (#[trigger] self.arenas@[k2]) is Some implies {
                        let a = self.arenas@[k2].unwrap();
                        a.wf() && forall|i: int|
                            0 <= i < a@.len() && (#[trigger] a@[i]) is Some ==> tag_idx(
                                a@[i].unwrap().spec_tag(),
                            ) == k2
                    } by {
                        let a = self.arenas@[k2].unwrap();
                        if k2 == k as int {
                            assert forall|i: int|
                                0 <= i < a@.len() && (#[trigger] a@[i]) is Some implies tag_idx(
                                a@[i].unwrap().spec_tag(),
                            ) == k2 by {
                                if i != cache_index.index as int {
                                    assert(a@[i] == a_old[i]);
                                }
                            }
                        } else {
                            assert(self.arenas@[k2] == mid.arenas@[k2]);
                        }
                    }
                }
            } else {
                proof {
                    assert(self.model() =~~= model_set(old(self).model(), *cache_index, new_value));
                }
            }
        } else {
            proof {
                assert(self.model() =~~= model_set(old(self).model(), *cache_index, new_value));
            }
        }
        proof {
            assert forall|c2: CacheIndex|
                c2 != *cache_index implies #[trigger] self.slot(c2) == old(self).slot(c2) by {
                lemma_model_set_slot(old(self).model(), *cache_index, new_value, c2);
            }
            lemma_model_set_slot(old(self).model(), *cache_index, new_value, *cache_index);
        }
    }

    /// Frees the cell a handle names, returning its slot to the arena's free
    /// stack. A no-op when the handle's tag does not match `t`, when the
    /// tag's arena is absent, or when the cell is already empty.
    pub fn remove(&mut self, cache_index: &CacheIndex, t: Tag)
        requires
            old(self).wf(),
        ensures
            final(self).wf(),
            cache_index.type_tag == t ==> final(self).slot(*cache_index) is None,
            cache_index.type_tag != t ==> *final(self) == *old(self),
            forall|c2: CacheIndex|
                c2 != *cache_index ==> #[trigger] final(self).slot(c2) == old(self).slot(c2),
            forall|t2: Tag|
                #[trigger] final(self).arena_model(t2) is Some == old(self).arena_model(
                    t2,
                ) is Some,
    {
        if cache_index.is_type(t) {
            let k = tag_slot(cache_index.type_tag);
            let present = match &self.arenas[k] {
                Some(_) => true,
                None => false,
            };
            if present {
                let ghost mid = *self;
                let ghost a_old = mid.arenas@[k as int].unwrap()@;
                let arena = self.arena_mut(k);
                arena.remove(cache_index.index);
                proof {
                    let a_new = self.arenas@[k as int].unwrap()@;
                    assert(self.model() =~~= mid.model().update(k as int, Some(a_new)));
                    assert forall|c2: CacheIndex|
                        c2 != *cache_index implies #[trigger] self.slot(c2) == mid.slot(c2) by {
                        if tag_idx(c2.type_tag) == k as int && (c2.index as int) < a_old.len()
                            && c2.index != cache_index.index {
                            assert(a_new[c2.index as int] == a_old[c2.index as int]);
                        }
                    }
                    assert forall|k2: int|
                        0 <= k2 < 5 && (#[trigger] self.arenas@[k2]) is Some implies {
                        let a = self.arenas@[k2].unwrap();
                        a.wf() && forall|i: int|
                            0 <= i < a@.len() && (#[trigger] a@[i]) is Some ==> tag_idx(
                                a@[i].unwrap().spec_tag(),
                            ) == k2
                    } by {
                        let a = self.arenas@[k2].unwrap();
                        if k2 == k as int {
                            assert forall|i: int|
                                0 <= i < a@.len() && (#[trigger] a@[i]) is Some implies tag_idx(
                                a@[i].unwrap().spec_tag(),
                            ) == k2 by {
                                if i != cache_index.index as int {
                                    assert(a@[i] == a_old[i]);
                                }
                            }
                        } else {
                            assert(self.arenas@[k2] == mid.arenas@[k2]);
                        }
                    }
                }
            }
        }
    }
}

/// Registration changes no slot.
proof fn lemma_model_register_slot(m: CacheModel, t: Tag, ci: CacheIndex)
    ensures
        model_slot(model_register(m, t), ci) == model_slot(m, ci),
{
}

/// Every occupied cell holds a value of the cell's own tag: a handle minted
/// for one type can never yield a value of another (type isolation).
pub proof fn lemma_cache_tag_sound(c: &Cache, ci: CacheIndex)
    requires
        c.wf(),
    ensures
        c.slot(ci) matches Some(v) ==> v.spec_tag() == ci.type_tag,
{
    if c.slot(ci) is Some {
        let k = tag_idx(ci.type_tag);
        assert(c.arenas@[k] is Some);
        let a = c.arenas@[k].unwrap();
        assert(a@[ci.index as int] is Some);
    }
}

} // verus!
