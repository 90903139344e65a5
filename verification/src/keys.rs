//! Sets of group keys.

use crate::record::{GroupKey, RequestGroup};
use vstd::prelude::*;

verus! {

/// A set of group keys, such as the pinned groups or the expanded ones.
#[derive(Debug)]
pub struct KeySet {
    keys: Vec<RequestGroup>,
}

/// The keys that `keys` holds.
pub open spec fn keys_among(keys: Seq<RequestGroup>) -> Set<GroupKey> {
    Set::new(|k: GroupKey| exists|i: int| 0 <= i < keys.len() && (#[trigger] keys[i])@ == k)
}

impl View for KeySet {
    type V = Set<GroupKey>;

    closed spec fn view(&self) -> Set<GroupKey> {
        keys_among(self.keys@)
    }
}

impl KeySet {
    /// The empty set.
    pub fn new() -> (s: Self)
        ensures
            s@ == Set::<GroupKey>::empty(),
    {
        let s = KeySet { keys: Vec::new() };
        assert(s@ =~= Set::<GroupKey>::empty());
        s
    }

    /// Where `key` stands in the set.
    fn position(&self, key: &RequestGroup) -> (r: Option<usize>)
        ensures
            match r {
                Some(i) => i < self.keys@.len() && self.keys@[i as int]@ == key@,
                None => !self@.contains(key@),
            },
            r is Some <==> self@.contains(key@),
    {
        let mut i: usize = 0;
        while i < self.keys.len()
            invariant
                i <= self.keys.len(),
                forall|k: int| 0 <= k < i ==> (#[trigger] self.keys@[k])@ != key@,
            decreases self.keys.len() - i,
        {
            if self.keys[i].same_as(key) {
                return Some(i);
            }
            i += 1;
        }
        None
    }

    /// Whether `key` is in the set.
    pub fn contains(&self, key: &RequestGroup) -> (r: bool)
        ensures
            r == self@.contains(key@),
    {
        self.position(key).is_some()
    }

    /// Puts `key` into the set.
    pub fn insert(&mut self, key: RequestGroup)
        ensures
            final(self)@ == old(self)@.insert(key@),
    {
        if self.position(&key).is_none() {
            let ghost before = self.keys@;
            self.keys.push(key);
            assert(keys_among(self.keys@) =~= keys_among(before).insert(key@)) by {
                assert forall|k: GroupKey| keys_among(before).insert(key@).contains(k) implies keys_among(
                    self.keys@,
                ).contains(k) by {
                    if k == key@ {
                        assert(self.keys@[before.len() as int]@ == k);
                    } else {
                        let i = choose|i: int| 0 <= i < before.len() && (#[trigger] before[i])@ == k;
                        assert(self.keys@[i]@ == k);
                    }
                }
            }
        } else {
            assert(self@ =~= self@.insert(key@));
        }
    }

    /// Takes `key` out of the set.
    pub fn remove(&mut self, key: &RequestGroup)
        ensures
            final(self)@ == old(self)@.remove(key@),
    {
        let mut kept: Vec<RequestGroup> = Vec::new();
        let mut i: usize = 0;
        while i < self.keys.len()
            invariant
                i <= self.keys.len(),
                forall|k: int| 0 <= k < kept@.len() ==> (#[trigger] kept@[k])@ != key@,
                forall|k: int|
                    0 <= k < kept@.len() ==> keys_among(self.keys@).contains((#[trigger] kept@[k])@),
                forall|k: int|
                    0 <= k < i && (#[trigger] self.keys@[k])@ != key@ ==> keys_among(kept@).contains(
                        self.keys@[k]@,
                    ),
            decreases self.keys.len() - i,
        {
            if !self.keys[i].same_as(key) {
                let ghost before = kept@;
                kept.push(self.keys[i].clone());
                proof {
                    assert(kept@[before.len() as int]@ == self.keys@[i as int]@);
                    assert forall|k: int|
                        0 <= k <= i && (#[trigger] self.keys@[k])@ != key@ implies keys_among(
                        kept@,
                    ).contains(self.keys@[k]@) by {
                        if k < i {
                            let w = choose|w: int|
                                0 <= w < before.len() && (#[trigger] before[w])@ == self.keys@[k]@;
                            assert(kept@[w]@ == self.keys@[k]@);
                        }
                    }
                }
            }
            i += 1;
        }
        proof {
            assert(keys_among(kept@) =~= keys_among(self.keys@).remove(key@)) by {
                assert forall|k: GroupKey| keys_among(self.keys@).remove(key@).contains(
                    k,
                ) implies keys_among(kept@).contains(k) by {
                    let w = choose|w: int|
                        0 <= w < self.keys@.len() && (#[trigger] self.keys@[w])@ == k;
                    assert(keys_among(kept@).contains(self.keys@[w]@));
                }
            }
        }
        self.keys = kept;
    }

    /// Puts `key` into the set if it is not there, and takes it out if it is.
    pub fn toggle(&mut self, key: RequestGroup)
        ensures
            final(self)@ == if old(self)@.contains(key@) {
                old(self)@.remove(key@)
            } else {
                old(self)@.insert(key@)
            },
    {
        if self.contains(&key) {
            self.remove(&key);
        } else {
            self.insert(key);
        }
    }

    /// Empties the set.
    pub fn clear(&mut self)
        ensures
            final(self)@ == Set::<GroupKey>::empty(),
    {
        self.keys.clear();
        assert(self@ =~= Set::<GroupKey>::empty());
    }
}

} // verus!
