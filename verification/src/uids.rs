//! Sets of record uids, and scroll positions kept by uid.

use crate::scroll::{Scroll, ScrollState};
use vstd::prelude::*;

verus! {

/// A set of record uids, such as those of the expanded records.
#[derive(Debug)]
pub struct UidSet {
    uids: Vec<String>,
}

/// The texts that `uids` holds.
pub open spec fn uids_among(uids: Seq<String>) -> Set<Seq<char>> {
    Set::new(|u: Seq<char>| exists|i: int| 0 <= i < uids.len() && (#[trigger] uids[i])@ == u)
}

impl View for UidSet {
    type V = Set<Seq<char>>;

    closed spec fn view(&self) -> Set<Seq<char>> {
        uids_among(self.uids@)
    }
}

impl UidSet {
    /// The empty set.
    pub fn new() -> (s: Self)
        ensures
            s@ == Set::<Seq<char>>::empty(),
    {
        let s = UidSet { uids: Vec::new() };
        assert(s@ =~= Set::<Seq<char>>::empty());
        s
    }

    /// Whether `uid` is in the set.
    pub fn contains(&self, uid: &String) -> (r: bool)
        ensures
            r == self@.contains(uid@),
    {
        let mut i: usize = 0;
        while i < self.uids.len()
            invariant
                i <= self.uids.len(),
                forall|k: int| 0 <= k < i ==> (#[trigger] self.uids@[k])@ != uid@,
            decreases self.uids.len() - i,
        {
            if self.uids[i] == *uid {
                return true;
            }
            i += 1;
        }
        false
    }

    /// Puts `uid` into the set.
    pub fn insert(&mut self, uid: String)
        ensures
            final(self)@ == old(self)@.insert(uid@),
    {
        if !self.contains(&uid) {
            let ghost before = self.uids@;
            self.uids.push(uid);
            assert(uids_among(self.uids@) =~= uids_among(before).insert(uid@)) by {
                assert forall|u: Seq<char>| uids_among(before).insert(uid@).contains(
                    u,
                ) implies uids_among(self.uids@).contains(u) by {
                    if u == uid@ {
                        assert(self.uids@[before.len() as int]@ == u);
                    } else {
                        let i = choose|i: int| 0 <= i < before.len() && (#[trigger] before[i])@ == u;
                        assert(self.uids@[i]@ == u);
                    }
                }
            }
        } else {
            assert(self@ =~= self@.insert(uid@));
        }
    }

    /// Takes `uid` out of the set.
    pub fn remove(&mut self, uid: &String)
        ensures
            final(self)@ == old(self)@.remove(uid@),
    {
        let mut kept: Vec<String> = Vec::new();
        let mut i: usize = 0;
        while i < self.uids.len()
            invariant
                i <= self.uids.len(),
                forall|k: int| 0 <= k < kept@.len() ==> (#[trigger] kept@[k])@ != uid@,
                forall|k: int|
                    0 <= k < kept@.len() ==> uids_among(self.uids@).contains((#[trigger] kept@[k])@),
                forall|k: int|
                    0 <= k < i && (#[trigger] self.uids@[k])@ != uid@ ==> uids_among(kept@).contains(
                        self.uids@[k]@,
                    ),
            decreases self.uids.len() - i,
        {
            if self.uids[i] != *uid {
                let ghost before = kept@;
                kept.push(self.uids[i].clone());
                proof {
                    assert(kept@[before.len() as int]@ == self.uids@[i as int]@);
                    assert forall|k: int|
                        0 <= k <= i && (#[trigger] self.uids@[k])@ != uid@ implies uids_among(
                        kept@,
                    ).contains(self.uids@[k]@) by {
                        if k < i {
                            let w = choose|w: int|
                                0 <= w < before.len() && (#[trigger] before[w])@ == self.uids@[k]@;
                            assert(kept@[w]@ == self.uids@[k]@);
                        }
                    }
                }
            }
            i += 1;
        }
        proof {
            assert(uids_among(kept@) =~= uids_among(self.uids@).remove(uid@)) by {
                assert forall|u: Seq<char>| uids_among(self.uids@).remove(uid@).contains(
                    u,
                ) implies uids_among(kept@).contains(u) by {
                    let w = choose|w: int|
                        0 <= w < self.uids@.len() && (#[trigger] self.uids@[w])@ == u;
                    assert(uids_among(kept@).contains(self.uids@[w]@));
                }
            }
        }
        self.uids = kept;
    }

    /// Puts `uid` into the set if it is not there, and takes it out if it is.
    pub fn toggle(&mut self, uid: String)
        ensures
            final(self)@ == if old(self)@.contains(uid@) {
                old(self)@.remove(uid@)
            } else {
                old(self)@.insert(uid@)
            },
    {
        if self.contains(&uid) {
            self.remove(&uid);
        } else {
            self.insert(uid);
        }
    }

    /// Empties the set.
    pub fn clear(&mut self)
        ensures
            final(self)@ == Set::<Seq<char>>::empty(),
    {
        self.uids.clear();
        assert(self@ =~= Set::<Seq<char>>::empty());
    }
}

/// The scroll positions of the records that were scrolled, by uid.
#[derive(Debug)]
pub struct ScrollTable {
    uids: Vec<String>,
    states: Vec<ScrollState>,
}

/// The position kept for `uid` among the first `n` entries, the latest entry
/// counting; the top of the content where there is none.
pub open spec fn kept_for(uids: Seq<String>, states: Seq<ScrollState>, uid: Seq<char>, n: int) -> Scroll
    decreases n,
{
    if n <= 0 || n > uids.len() || n > states.len() {
        Scroll { offset: 0, cursor: 0 }
    } else if uids[n - 1]@ == uid {
        states[n - 1]@
    } else {
        kept_for(uids, states, uid, n - 1)
    }
}

impl View for ScrollTable {
    type V = Map<Seq<char>, Scroll>;

    /// For every uid the position kept for it; the top of the content for a
    /// uid that was never given one.
    closed spec fn view(&self) -> Map<Seq<char>, Scroll> {
        Map::total(|uid: Seq<char>| kept_for(self.uids@, self.states@, uid, self.uids@.len() as int))
    }
}

/// The table that keeps the top of the content for every uid.
pub open spec fn all_at_top() -> Map<Seq<char>, Scroll> {
    Map::total(|uid: Seq<char>| Scroll { offset: 0, cursor: 0 })
}

impl ScrollTable {
    /// A table that keeps no position.
    pub fn new() -> (t: Self)
        ensures
            t@ == all_at_top(),
    {
        let t = ScrollTable { uids: Vec::new(), states: Vec::new() };
        assert(t@ =~= all_at_top());
        t
    }

    /// The position kept for `uid`.
    pub fn get(&self, uid: &String) -> (s: ScrollState)
        ensures
            s@ == self@[uid@],
    {
        let mut n: usize = self.uids.len();
        if n > self.states.len() {
            return ScrollState { offset: 0, cursor: 0 };
        }
        while n > 0
            invariant
                n <= self.uids.len(),
                n <= self.states.len(),
                self@[uid@] == kept_for(self.uids@, self.states@, uid@, n as int),
            decreases n,
        {
            if self.uids[n - 1] == *uid {
                return self.states[n - 1];
            }
            n -= 1;
        }
        ScrollState { offset: 0, cursor: 0 }
    }

    /// Keeps `state` for `uid`, in place of what was kept for it.
    pub fn set(&mut self, uid: String, state: ScrollState)
        ensures
            final(self)@ == old(self)@.insert(uid@, state@),
    {
        let mut uids: Vec<String> = Vec::new();
        let mut states: Vec<ScrollState> = Vec::new();
        let mut i: usize = 0;
        let n: usize = if self.uids.len() <= self.states.len() {
            self.uids.len()
        } else {
            0
        };
        while i < n
            invariant
                i <= n,
                n <= self.uids.len(),
                n <= self.states.len(),
                n == self.uids.len() || n == 0,
                uids@.len() == states@.len(),
                forall|other: Seq<char>|
                    other != uid@ ==> #[trigger] kept_for(uids@, states@, other, uids@.len() as int)
                        == kept_for(self.uids@, self.states@, other, i as int),
            decreases n - i,
        {
            if self.uids[i] != uid {
                let ghost u0 = uids@;
                let ghost s0 = states@;
                uids.push(self.uids[i].clone());
                states.push(self.states[i]);
                proof {
                    assert forall|other: Seq<char>| other != uid@ implies #[trigger] kept_for(
                        uids@,
                        states@,
                        other,
                        uids@.len() as int,
                    ) == kept_for(self.uids@, self.states@, other, i + 1) by {
                        lemma_kept_for_prefix(u0, s0, uids@, states@, other, u0.len() as int);
                    }
                }
            }
            i += 1;
        }
        let ghost u1 = uids@;
        let ghost s1 = states@;
        let ghost key = uid@;
        uids.push(uid);
        states.push(state);
        proof {
            assert forall|other: Seq<char>| other != key implies #[trigger] kept_for(
                uids@,
                states@,
                other,
                uids@.len() as int,
            ) == old(self)@[other] by {
                lemma_kept_for_prefix(u1, s1, uids@, states@, other, u1.len() as int);
            }
        }
        self.uids = uids;
        self.states = states;
        assert(self@ =~= old(self)@.insert(key, state@));
    }

    /// Forgets every position.
    pub fn clear(&mut self)
        ensures
            final(self)@ == all_at_top(),
    {
        self.uids.clear();
        self.states.clear();
        assert(self@ =~= all_at_top());
    }
}

/// What is kept among the first entries does not depend on later ones.
proof fn lemma_kept_for_prefix(
    u0: Seq<String>,
    s0: Seq<ScrollState>,
    u1: Seq<String>,
    s1: Seq<ScrollState>,
    uid: Seq<char>,
    n: int,
)
    requires
        0 <= n <= u0.len(),
        u0.len() == s0.len(),
        u0.len() <= u1.len(),
        u1.len() == s1.len(),
        forall|k: int| 0 <= k < u0.len() ==> u0[k] == u1[k] && s0[k] == s1[k],
    ensures
        kept_for(u0, s0, uid, n) == kept_for(u1, s1, uid, n),
    decreases n,
{
    if n > 0 {
        lemma_kept_for_prefix(u0, s0, u1, s1, uid, n - 1);
    }
}

} // verus!
