//! Grouping of records by key, and the order of the groups.

use crate::keys::KeySet;
use crate::record::{group_key, GroupKey, LogRecord, RequestGroup, SqlLogMessage};
use crate::text::{lemma_lex_total, lemma_lex_transitive, lex_lt, str_lt};
use vstd::prelude::*;

verus! {

/// A group: its key and the records that belong to it.
pub ghost struct Group {
    pub key: GroupKey,
    pub members: Seq<LogRecord>,
}

/// What a sequence of records holds.
pub open spec fn records_of(v: Seq<SqlLogMessage>) -> Seq<LogRecord> {
    Seq::new(v.len(), |i: int| v[i]@)
}

/// What a sequence of groups holds.
pub open spec fn groups_of(v: Seq<(RequestGroup, Vec<SqlLogMessage>)>) -> Seq<Group> {
    Seq::new(v.len(), |i: int| Group { key: v[i].0@, members: records_of(v[i].1@) })
}

/// The records grouped: each group with its key and its records.
pub struct GroupedLogMessages {
    pub groups: Vec<(RequestGroup, Vec<SqlLogMessage>)>,
}

impl View for GroupedLogMessages {
    type V = Seq<Group>;

    open spec fn view(&self) -> Seq<Group> {
        groups_of(self.groups@)
    }
}

/// The records with key `key`, in the order in which they stand in
/// `records`.
pub open spec fn members_of(records: Seq<LogRecord>, key: GroupKey) -> Seq<LogRecord>
    decreases records.len(),
{
    if records.len() == 0 {
        Seq::empty()
    } else {
        let rest = members_of(records.drop_last(), key);
        if group_key(records.last()) == key {
            rest.push(records.last())
        } else {
            rest
        }
    }
}

/// The latest timestamp among `members`, by the order of strings; the empty
/// text where there is no member.
pub open spec fn latest(members: Seq<LogRecord>) -> Seq<char>
    decreases members.len(),
{
    if members.len() == 0 {
        Seq::empty()
    } else {
        let rest = latest(members.drop_last());
        if lex_lt(rest, members.last().timestamp) {
            members.last().timestamp
        } else {
            rest
        }
    }
}

/// Whether group `a` is shown before group `b`: a pinned group before one
/// that is not pinned; then the group with the later latest timestamp; then
/// by label, then by method tag, in the order of strings.
pub open spec fn precedes(a: Group, b: Group, pins: Set<GroupKey>) -> bool {
    if pins.contains(a.key) != pins.contains(b.key) {
        pins.contains(a.key)
    } else if latest(a.members) != latest(b.members) {
        lex_lt(latest(b.members), latest(a.members))
    } else if a.key.label != b.key.label {
        lex_lt(a.key.label, b.key.label)
    } else {
        lex_lt(a.key.method, b.key.method)
    }
}

/// Whether one of `groups` has key `key`.
pub open spec fn has_group(groups: Seq<Group>, key: GroupKey) -> bool {
    exists|j: int| 0 <= j < groups.len() && (#[trigger] groups[j]).key == key
}

/// Whether `groups` is the grouping of `records` under the pins `pins`:
/// each group holds all the records of its key and at least one, every
/// record is in a group, and the groups stand in the order of `precedes`.
pub open spec fn is_grouping(records: Seq<LogRecord>, pins: Set<GroupKey>, groups: Seq<Group>) -> bool {
    &&& forall|i: int|
        0 <= i < groups.len() ==> (#[trigger] groups[i]).members.len() > 0 && groups[i].members
            == members_of(records, groups[i].key)
    &&& forall|i: int|
        0 <= i < records.len() ==> has_group(groups, group_key(#[trigger] records[i]))
    &&& forall|i: int, j: int|
        0 <= i < j < groups.len() ==> precedes(#[trigger] groups[i], #[trigger] groups[j], pins)
}

/// No group comes before itself, and of two groups the one that comes first
/// does not come second.
pub proof fn lemma_precedes_asymmetric(a: Group, b: Group, pins: Set<GroupKey>)
    ensures
        !(precedes(a, b, pins) && precedes(b, a, pins)),
        !precedes(a, a, pins),
{
    lemma_lex_total(latest(a.members), latest(b.members));
    lemma_lex_total(a.key.label, b.key.label);
    lemma_lex_total(a.key.method, b.key.method);
    lemma_lex_total(a.key.method, a.key.method);
}

/// Of two groups with different keys one comes before the other.
pub proof fn lemma_precedes_total(a: Group, b: Group, pins: Set<GroupKey>)
    requires
        a.key != b.key,
    ensures
        precedes(a, b, pins) || precedes(b, a, pins),
{
    lemma_lex_total(latest(a.members), latest(b.members));
    lemma_lex_total(a.key.label, b.key.label);
    lemma_lex_total(a.key.method, b.key.method);
}

/// The order of groups is transitive.
pub proof fn lemma_precedes_transitive(a: Group, b: Group, c: Group, pins: Set<GroupKey>)
    requires
        precedes(a, b, pins),
        precedes(b, c, pins),
    ensures
        precedes(a, c, pins),
{
    let (la, lb, lc) = (latest(a.members), latest(b.members), latest(c.members));
    lemma_lex_total(la, lb);
    lemma_lex_total(lb, lc);
    lemma_lex_total(la, lc);
    lemma_lex_total(a.key.label, b.key.label);
    lemma_lex_total(b.key.label, c.key.label);
    lemma_lex_total(a.key.label, c.key.label);
    lemma_lex_total(a.key.method, b.key.method);
    lemma_lex_total(b.key.method, c.key.method);
    lemma_lex_total(a.key.method, c.key.method);
    if pins.contains(a.key) == pins.contains(b.key) && pins.contains(b.key) == pins.contains(
        c.key,
    ) {
        if lex_lt(lc, lb) && lex_lt(lb, la) {
            lemma_lex_transitive(lc, lb, la);
        }
        if la == lb && lb == lc {
            if lex_lt(a.key.label, b.key.label) && lex_lt(b.key.label, c.key.label) {
                lemma_lex_transitive(a.key.label, b.key.label, c.key.label);
            }
            if a.key.label == b.key.label && b.key.label == c.key.label {
                if lex_lt(a.key.method, b.key.method) && lex_lt(b.key.method, c.key.method) {
                    lemma_lex_transitive(a.key.method, b.key.method, c.key.method);
                }
            }
        }
    }
}

/// A key has members among `records` exactly when some record has that key.
pub proof fn lemma_members_nonempty(records: Seq<LogRecord>, key: GroupKey)
    ensures
        members_of(records, key).len() > 0 <==> exists|i: int|
            0 <= i < records.len() && group_key(#[trigger] records[i]) == key,
    decreases records.len(),
{
    if records.len() > 0 {
        let front = records.drop_last();
        lemma_members_nonempty(front, key);
        if members_of(records, key).len() > 0 {
            if group_key(records.last()) == key {
                assert(group_key(records[records.len() - 1]) == key);
            } else {
                let i = choose|i: int| 0 <= i < front.len() && group_key(#[trigger] front[i]) == key;
                assert(group_key(records[i]) == key);
            }
        }
        if exists|i: int| 0 <= i < records.len() && group_key(#[trigger] records[i]) == key {
            let i = choose|i: int| 0 <= i < records.len() && group_key(#[trigger] records[i]) == key;
            if i < front.len() {
                assert(group_key(front[i]) == key);
            }
        }
    }
}

/// Two groupings of the same records under the same pins agree up to
/// position `n`.
proof fn lemma_grouping_prefix(
    records: Seq<LogRecord>,
    pins: Set<GroupKey>,
    a: Seq<Group>,
    b: Seq<Group>,
    n: int,
)
    requires
        is_grouping(records, pins, a),
        is_grouping(records, pins, b),
        0 <= n <= a.len(),
    ensures
        n <= b.len(),
        forall|k: int| 0 <= k < n ==> a[k] == b[k],
    decreases n,
{
    if n > 0 {
        lemma_grouping_prefix(records, pins, a, b, n - 1);
        let i = n - 1;
        let j = lemma_group_found(records, pins, a, b, i);
        if j < i {
            lemma_precedes_asymmetric(a[j], a[i], pins);
        } else if j > i {
            let w = lemma_group_found(records, pins, b, a, i);
            if w < i {
                lemma_precedes_asymmetric(b[w], b[i], pins);
            } else if w > i {
                lemma_precedes_asymmetric(a[i], b[i], pins);
            } else {
                lemma_precedes_asymmetric(b[i], b[j], pins);
            }
        }
    }
}

/// A group of one grouping stands in every other grouping of the same
/// records.
proof fn lemma_group_found(
    records: Seq<LogRecord>,
    pins: Set<GroupKey>,
    a: Seq<Group>,
    b: Seq<Group>,
    i: int,
) -> (j: int)
    requires
        is_grouping(records, pins, a),
        is_grouping(records, pins, b),
        0 <= i < a.len(),
    ensures
        0 <= j < b.len(),
        b[j] == a[i],
{
    lemma_members_nonempty(records, a[i].key);
    let r = choose|r: int| 0 <= r < records.len() && group_key(#[trigger] records[r]) == a[i].key;
    assert(has_group(b, group_key(records[r])));
    let j = choose|j: int| 0 <= j < b.len() && (#[trigger] b[j]).key == group_key(records[r]);
    j
}

/// There is one grouping only: two groupings of the same records under the
/// same pins are the same sequence of groups, so that grouping again gives
/// the same order.
pub proof fn lemma_grouping_unique(
    records: Seq<LogRecord>,
    pins: Set<GroupKey>,
    a: Seq<Group>,
    b: Seq<Group>,
)
    requires
        is_grouping(records, pins, a),
        is_grouping(records, pins, b),
    ensures
        a == b,
{
    lemma_grouping_prefix(records, pins, a, b, a.len() as int);
    lemma_grouping_prefix(records, pins, b, a, b.len() as int);
    assert(a =~= b);
}

/// In a grouping no group that is not pinned stands before a pinned one.
pub proof fn lemma_pinned_first(
    records: Seq<LogRecord>,
    pins: Set<GroupKey>,
    groups: Seq<Group>,
    i: int,
    j: int,
)
    requires
        is_grouping(records, pins, groups),
        0 <= i < j < groups.len(),
        pins.contains(groups[j].key),
    ensures
        pins.contains(groups[i].key),
{
    assert(precedes(groups[i], groups[j], pins));
}

/// The grouping of `records` under the pins `pins`.
pub open spec fn grouping(records: Seq<LogRecord>, pins: Set<GroupKey>) -> Seq<Group> {
    choose|groups: Seq<Group>| is_grouping(records, pins, groups)
}

/// What one group holds.
pub open spec fn group_of(g: (RequestGroup, Vec<SqlLogMessage>)) -> Group {
    Group { key: g.0@, members: records_of(g.1@) }
}

/// The latest timestamp among `members`.
fn latest_timestamp(members: &Vec<SqlLogMessage>) -> (r: String)
    ensures
        r@ == latest(records_of(members@)),
{
    let ghost all = records_of(members@);
    let mut best = String::new();
    let mut i: usize = 0;
    assert(all.take(0) =~= Seq::<LogRecord>::empty());
    while i < members.len()
        invariant
            i <= members.len(),
            all == records_of(members@),
            best@ == latest(all.take(i as int)),
        decreases members.len() - i,
    {
        proof {
            assert(all.take(i + 1).drop_last() =~= all.take(i as int));
            assert(all.take(i + 1).last() == members@[i as int]@);
        }
        if str_lt(best.as_str(), members[i].timestamp.as_str()) {
            best = members[i].timestamp.clone();
        }
        i += 1;
    }
    assert(all.take(members@.len() as int) =~= all);
    best
}

/// Whether group `a` is shown before group `b`.
fn group_precedes(
    a: &(RequestGroup, Vec<SqlLogMessage>),
    b: &(RequestGroup, Vec<SqlLogMessage>),
    pins: &KeySet,
) -> (r: bool)
    ensures
        r == precedes(group_of(*a), group_of(*b), pins@),
{
    let a_pinned = pins.contains(&a.0);
    let b_pinned = pins.contains(&b.0);
    if a_pinned != b_pinned {
        return a_pinned;
    }
    let a_latest = latest_timestamp(&a.1);
    let b_latest = latest_timestamp(&b.1);
    if a_latest != b_latest {
        return str_lt(b_latest.as_str(), a_latest.as_str());
    }
    if a.0.endpoint != b.0.endpoint {
        return str_lt(a.0.endpoint.as_str(), b.0.endpoint.as_str());
    }
    str_lt(a.0.http_method.as_str(), b.0.http_method.as_str())
}

/// Where `key` stands among `keys`.
fn find_key(keys: &Vec<RequestGroup>, key: &RequestGroup) -> (found: Option<usize>)
    ensures
        match found {
            Some(k) => k < keys@.len() && keys@[k as int]@ == key@,
            None => forall|j: int| 0 <= j < keys@.len() ==> (#[trigger] keys@[j])@ != key@,
        },
{
    let mut k: usize = 0;
    while k < keys.len()
        invariant
            k <= keys.len(),
            forall|j: int| 0 <= j < k ==> (#[trigger] keys@[j])@ != key@,
        decreases keys.len() - k,
    {
        if keys[k].same_as(key) {
            return Some(k);
        }
        k += 1;
    }
    None
}

/// The keys of `messages`, each once, in the order in which they first
/// occur; with them, for each message the place of its key, and for each key
/// a message that has it.
fn distinct_keys(messages: &[SqlLogMessage]) -> (r: (
    Vec<RequestGroup>,
    Ghost<Seq<int>>,
    Ghost<Seq<int>>,
))
    ensures
        forall|i: int, j: int|
            0 <= i < j < r.0@.len() ==> (#[trigger] r.0@[i])@ != (#[trigger] r.0@[j])@,
        r.1@.len() == messages@.len(),
        forall|i: int|
            0 <= i < messages@.len() ==> 0 <= (#[trigger] r.1@[i]) < r.0@.len() && r.0@[r.1@[i]]@
                == group_key(messages@[i]@),
        r.2@.len() == r.0@.len(),
        forall|j: int|
            0 <= j < r.0@.len() ==> 0 <= (#[trigger] r.2@[j]) < messages@.len() && group_key(
                messages@[r.2@[j]]@,
            ) == r.0@[j]@,
{
    let mut keys: Vec<RequestGroup> = Vec::new();
    let ghost mut slot: Seq<int> = Seq::empty();
    let ghost mut first: Seq<int> = Seq::empty();
    let mut n: usize = 0;
    while n < messages.len()
        invariant
            n <= messages.len(),
            forall|i: int, j: int|
                0 <= i < j < keys@.len() ==> (#[trigger] keys@[i])@ != (#[trigger] keys@[j])@,
            slot.len() == n,
            forall|i: int|
                0 <= i < n ==> 0 <= (#[trigger] slot[i]) < keys@.len() && keys@[slot[i]]@
                    == group_key(messages@[i]@),
            first.len() == keys@.len(),
            forall|j: int|
                0 <= j < keys@.len() ==> 0 <= (#[trigger] first[j]) < n && group_key(
                    messages@[first[j]]@,
                ) == keys@[j]@,
        decreases messages.len() - n,
    {
        let key = RequestGroup::from_message(&messages[n]);
        match find_key(&keys, &key) {
            Some(k) => {
                proof {
                    slot = slot.push(k as int);
                }
            },
            None => {
                proof {
                    slot = slot.push(keys@.len() as int);
                    first = first.push(n as int);
                }
                keys.push(key);
            },
        }
        n += 1;
    }
    (keys, Ghost(slot), Ghost(first))
}

/// Copies of the records of `messages` that have key `key`, in their order.
fn collect_members(messages: &[SqlLogMessage], key: &RequestGroup) -> (r: Vec<SqlLogMessage>)
    ensures
        records_of(r@) == members_of(records_of(messages@), key@),
{
    let ghost all = records_of(messages@);
    let mut r: Vec<SqlLogMessage> = Vec::new();
    let mut i: usize = 0;
    assert(all.take(0) =~= Seq::<LogRecord>::empty());
    assert(records_of(r@) =~= Seq::<LogRecord>::empty());
    while i < messages.len()
        invariant
            i <= messages.len(),
            all == records_of(messages@),
            records_of(r@) == members_of(all.take(i as int), key@),
        decreases messages.len() - i,
    {
        proof {
            assert(all.take(i + 1).drop_last() =~= all.take(i as int));
            assert(all.take(i + 1).last() == messages@[i as int]@);
        }
        let k = RequestGroup::from_message(&messages[i]);
        if k.same_as(key) {
            let ghost before = r@;
            let copy = messages[i].clone();
            r.push(copy);
            assert(records_of(r@) =~= records_of(before).push(messages@[i as int]@));
        }
        i += 1;
    }
    assert(all.take(messages@.len() as int) =~= all);
    r
}

/// Whether the groups stand in the order of `precedes`.
pub open spec fn is_ordered(groups: Seq<Group>, pins: Set<GroupKey>) -> bool {
    forall|i: int, j: int|
        0 <= i < j < groups.len() ==> precedes(#[trigger] groups[i], #[trigger] groups[j], pins)
}

/// Puts groups with different keys into the order of `precedes`. With the
/// sorted groups come, for each of them, where it stood before, and for each
/// group as it stood before, where it stands now.
fn sort_groups(buckets: Vec<(RequestGroup, Vec<SqlLogMessage>)>, pins: &KeySet) -> (r: (
    Vec<(RequestGroup, Vec<SqlLogMessage>)>,
    Ghost<Seq<int>>,
    Ghost<Seq<int>>,
))
    requires
        forall|i: int, j: int|
            0 <= i < j < buckets@.len() ==> (#[trigger] buckets@[i]).0@ != (
            #[trigger] buckets@[j]).0@,
    ensures
        is_ordered(groups_of(r.0@), pins@),
        r.1@.len() == r.0@.len(),
        forall|j: int|
            0 <= j < r.0@.len() ==> 0 <= (#[trigger] r.1@[j]) < buckets@.len() && groups_of(
                r.0@,
            )[j] == groups_of(buckets@)[r.1@[j]],
        r.2@.len() == buckets@.len(),
        forall|i: int|
            0 <= i < buckets@.len() ==> 0 <= (#[trigger] r.2@[i]) < r.0@.len() && groups_of(
                r.0@,
            )[r.2@[i]] == groups_of(buckets@)[i],
{
    let ghost all = groups_of(buckets@);
    let mut rest = buckets;
    let mut sorted: Vec<(RequestGroup, Vec<SqlLogMessage>)> = Vec::new();
    let ghost mut origin: Seq<int> = Seq::empty();
    let ghost mut place: Seq<int> = Seq::empty();
    assert(groups_of(rest@) =~= all.take(rest@.len() as int));
    while rest.len() > 0
        invariant
            rest@.len() <= all.len(),
            groups_of(rest@) == all.take(rest@.len() as int),
            forall|i: int, j: int|
                0 <= i < j < all.len() ==> (#[trigger] all[i]).key != (#[trigger] all[j]).key,
            is_ordered(groups_of(sorted@), pins@),
            origin.len() == sorted@.len(),
            forall|j: int|
                0 <= j < sorted@.len() ==> rest@.len() <= (#[trigger] origin[j]) < all.len()
                    && groups_of(sorted@)[j] == all[origin[j]],
            place.len() == all.len() - rest@.len(),
            forall|t: int|
                0 <= t < place.len() ==> 0 <= (#[trigger] place[t]) < sorted@.len() && groups_of(
                    sorted@,
                )[place[t]] == all[rest@.len() + t],
        decreases rest@.len(),
    {
        let ghost n = rest@.len() - 1;
        let ghost old_rest = rest@;
        let g = match rest.pop() {
            Some(g) => g,
            None => { return (sorted, Ghost(origin), Ghost(place)); },
        };
        let ghost gv = group_of(g);
        let ghost sv = groups_of(sorted@);
        proof {
            assert(groups_of(old_rest)[n] == all.take(old_rest.len() as int)[n]);
            assert(gv == all[n]);
            assert(groups_of(rest@) =~= all.take(rest@.len() as int)) by {
                assert forall|k: int| 0 <= k < rest@.len() implies groups_of(rest@)[k] == all[k] by {
                    assert(groups_of(old_rest)[k] == all.take(old_rest.len() as int)[k]);
                }
            }
            assert forall|q: int| 0 <= q < sv.len() implies (#[trigger] sv[q]).key != gv.key by {
                assert(sv[q] == all[origin[q]]);
                assert(all[n].key != all[origin[q]].key);
            }
        }
        let mut p: usize = 0;
        while p < sorted.len() && !group_precedes(&g, &sorted[p], pins)
            invariant
                p <= sorted.len(),
                sv == groups_of(sorted@),
                gv == group_of(g),
                forall|q: int| 0 <= q < p ==> !precedes(gv, #[trigger] sv[q], pins@),
            decreases sorted.len() - p,
        {
            assert(sv[p as int] == group_of(sorted@[p as int]));
            p += 1;
        }
        proof {
            if p < sorted.len() {
                assert(sv[p as int] == group_of(sorted@[p as int]));
            }
            assert forall|q: int| 0 <= q < p implies precedes(#[trigger] sv[q], gv, pins@) by {
                lemma_precedes_total(sv[q], gv, pins@);
            }
            assert forall|q: int| p <= q < sv.len() implies precedes(gv, #[trigger] sv[q], pins@) by {
                if q > p {
                    lemma_precedes_transitive(gv, sv[p as int], sv[q], pins@);
                }
            }
        }
        sorted.insert(p, g);
        proof {
            let nv = groups_of(sorted@);
            assert(nv =~= sv.insert(p as int, gv));
            assert(is_ordered(nv, pins@)) by {
                assert forall|i: int, j: int| 0 <= i < j < nv.len() implies precedes(
                    #[trigger] nv[i],
                    #[trigger] nv[j],
                    pins@,
                ) by {
                    if i < p && j > p {
                        assert(nv[i] == sv[i] && nv[j] == sv[j - 1]);
                    } else if i < p && j < p {
                        assert(nv[i] == sv[i] && nv[j] == sv[j]);
                    } else if i > p {
                        assert(nv[i] == sv[i - 1] && nv[j] == sv[j - 1]);
                    } else if i == p {
                        assert(nv[j] == sv[j - 1]);
                    } else {
                        assert(nv[i] == sv[i]);
                    }
                }
            }
            let shifted = Seq::new(
                place.len() + 1,
                |t: int|
                    if t == 0 {
                        p as int
                    } else if place[t - 1] >= p {
                        place[t - 1] + 1
                    } else {
                        place[t - 1]
                    },
            );
            let moved = origin.insert(p as int, n);
            assert forall|j: int| 0 <= j < nv.len() implies n <= (#[trigger] moved[j]) < all.len()
                && nv[j] == all[moved[j]] by {
                if j < p {
                    assert(moved[j] == origin[j] && nv[j] == sv[j]);
                } else if j > p {
                    assert(moved[j] == origin[j - 1] && nv[j] == sv[j - 1]);
                }
            }
            assert forall|t: int| 0 <= t < shifted.len() implies 0 <= (#[trigger] shifted[t])
                < nv.len() && nv[shifted[t]] == all[n + t] by {
                if t > 0 {
                    let x = place[t - 1];
                    assert(sv[x] == all[n + 1 + (t - 1)]);
                    if x >= p {
                        assert(nv[x + 1] == sv[x]);
                    } else {
                        assert(nv[x] == sv[x]);
                    }
                }
            }
            origin = moved;
            place = shifted;
        }
    }
    (sorted, Ghost(origin), Ghost(place))
}

impl GroupedLogMessages {
    /// Groups `messages` by key and orders the groups: pinned groups first,
    /// then by latest activity, then by key.
    pub fn from_messages(messages: &[SqlLogMessage], pinned_groups: &KeySet) -> (r: Self)
        ensures
            is_grouping(records_of(messages@), pinned_groups@, r@),
            r@ == grouping(records_of(messages@), pinned_groups@),
            forall|i: int, j: int|
                0 <= i < j < r@.len() && pinned_groups@.contains((#[trigger] r@[j]).key)
                    ==> pinned_groups@.contains((#[trigger] r@[i]).key),
    {
        let ghost records = records_of(messages@);
        let (keys, Ghost(slot), Ghost(first)) = distinct_keys(messages);
        let mut buckets: Vec<(RequestGroup, Vec<SqlLogMessage>)> = Vec::new();
        let mut k: usize = 0;
        while k < keys.len()
            invariant
                k <= keys.len(),
                records == records_of(messages@),
                buckets@.len() == k,
                forall|i: int|
                    0 <= i < k ==> (#[trigger] buckets@[i]).0@ == keys@[i]@ && records_of(
                        buckets@[i].1@,
                    ) == members_of(records, keys@[i]@),
            decreases keys.len() - k,
        {
            let key = keys[k].clone();
            let members = collect_members(messages, &key);
            buckets.push((key, members));
            k += 1;
        }
        let ghost unsorted = groups_of(buckets@);
        let (groups, Ghost(origin), Ghost(place)) = sort_groups(buckets, pinned_groups);
        let r = GroupedLogMessages { groups };
        proof {
            let gs = r@;
            assert forall|i: int| 0 <= i < gs.len() implies (#[trigger] gs[i]).members.len() > 0
                && gs[i].members == members_of(records, gs[i].key) by {
                let u = origin[i];
                assert(gs[i] == unsorted[u]);
                lemma_members_nonempty(records, keys@[u]@);
                assert(group_key(records[first[u]]) == keys@[u]@);
            }
            assert forall|i: int| 0 <= i < records.len() implies has_group(
                gs,
                group_key(#[trigger] records[i]),
            ) by {
                let u = slot[i];
                assert(unsorted[u].key == group_key(records[i]));
                assert(gs[place[u]] == unsorted[u]);
            }
            assert forall|i: int, j: int|
                0 <= i < j < gs.len() && pinned_groups@.contains(
                    (#[trigger] gs[j]).key,
                ) implies pinned_groups@.contains((#[trigger] gs[i]).key) by {
                assert(precedes(gs[i], gs[j], pinned_groups@));
            }
            assert(is_grouping(records, pinned_groups@, gs));
            lemma_grouping_unique(records, pinned_groups@, gs, grouping(records, pinned_groups@));
        }
        r
    }

    /// How many records the groups hold in all.
    pub fn total_item_count(&self) -> (n: usize)
        ensures
            n == if total_members(self@) <= usize::MAX {
                total_members(self@)
            } else {
                usize::MAX as nat
            },
    {
        let ghost all = self@;
        let mut n: usize = 0;
        let mut i: usize = 0;
        assert(all.take(0) =~= Seq::<Group>::empty());
        while i < self.groups.len()
            invariant
                i <= self.groups.len(),
                all == self@,
                n == total_members(all.take(i as int)),
            decreases self.groups.len() - i,
        {
            let c = self.groups[i].1.len();
            proof {
                assert(all.take(i + 1).drop_last() =~= all.take(i as int));
                assert(all.take(i + 1).last() == all[i as int]);
            }
            if c > usize::MAX - n {
                proof {
                    lemma_total_members_grows(all, i + 1);
                }
                return usize::MAX;
            }
            n = n + c;
            i += 1;
        }
        assert(all.take(self.groups@.len() as int) =~= all);
        n
    }
}

/// The number of records in all the groups together.
pub open spec fn total_members(groups: Seq<Group>) -> nat
    decreases groups.len(),
{
    if groups.len() == 0 {
        0
    } else {
        total_members(groups.drop_last()) + groups.last().members.len()
    }
}

/// A head of the groups holds no more records than all of them.
pub proof fn lemma_total_members_grows(groups: Seq<Group>, k: int)
    requires
        0 <= k <= groups.len(),
    ensures
        total_members(groups.take(k)) <= total_members(groups),
    decreases groups.len() - k,
{
    if k < groups.len() {
        assert(groups.take(k + 1).drop_last() =~= groups.take(k));
        lemma_total_members_grows(groups, k + 1);
    } else {
        assert(groups.take(k) =~= groups);
    }
}

} // verus!
