//! Keeping the selection on its record while the list changes.

use crate::group::{is_grouping, members_of, Group};
use crate::nav::{
    flattened, group_rows, matches_filter, matching, member_rows, newest_first, rows_of,
    FlatNavigationItem, Row,
};
use crate::nav_laws::{lemma_matching_members, lemma_newest_first};
use crate::record::{clone_text, group_key, text_of, GroupKey, LogRecord};
use vstd::prelude::*;

verus! {

/// The uid of the record that a row shows; a header has none.
pub open spec fn uid_of(row: Row) -> Option<Seq<char>> {
    match row {
        Row::Member(r) => r.uid,
        Row::Header(_) => None,
    }
}

/// Whether `at` is the first row that shows a record with uid `uid`.
pub open spec fn is_first_with_uid(rows: Seq<Row>, uid: Seq<char>, at: int) -> bool {
    &&& 0 <= at < rows.len()
    &&& uid_of(rows[at]) == Some(uid)
    &&& forall|k: int| 0 <= k < at ==> uid_of(#[trigger] rows[k]) != Some(uid)
}

/// Whether no row shows a record with uid `uid`.
pub open spec fn has_no_uid(rows: Seq<Row>, uid: Seq<char>) -> bool {
    forall|k: int| 0 <= k < rows.len() ==> uid_of(#[trigger] rows[k]) != Some(uid)
}

/// Which row is selected, and the first row that the list shows.
#[derive(Debug, Clone, Copy, PartialEq, Eq, Structural)]
pub struct Selection {
    pub position: usize,
    pub scroll_offset: usize,
}

/// `position` brought into the rows that exist; 0 where there is none.
pub open spec fn clamped_position(position: int, rows: int) -> int {
    if rows <= 0 {
        0
    } else if position >= rows {
        rows - 1
    } else {
        position
    }
}

/// The offset moved by as little as brings row `found` into a window of
/// `viewport` rows.
pub open spec fn offset_showing(offset: int, found: int, viewport: int) -> int {
    if found < offset {
        found
    } else if viewport > 0 && found - offset >= viewport {
        found - viewport + 1
    } else {
        offset
    }
}

/// The uid of the record shown at `position`, to be remembered while the
/// records change. A header, or a position behind the list, gives none.
pub fn selected_uid(rows: &Vec<FlatNavigationItem>, position: usize) -> (r: Option<String>)
    ensures
        text_of(r) == if position < rows@.len() {
            uid_of(rows@[position as int]@)
        } else {
            None
        },
{
    if position < rows.len() {
        match &rows[position] {
            FlatNavigationItem::Message(msg) => clone_text(&msg.uid),
            FlatNavigationItem::GroupHeader(_) => None,
        }
    } else {
        None
    }
}

/// The first row that shows a record with uid `uid`.
pub fn find_uid(rows: &Vec<FlatNavigationItem>, uid: &str) -> (r: Option<usize>)
    ensures
        match r {
            Some(at) => is_first_with_uid(rows_of(rows@), uid@, at as int),
            None => has_no_uid(rows_of(rows@), uid@),
        },
{
    let ghost all = rows_of(rows@);
    let wanted = uid.to_owned();
    let mut i: usize = 0;
    while i < rows.len()
        invariant
            i <= rows.len(),
            all == rows_of(rows@),
            wanted@ == uid@,
            forall|k: int| 0 <= k < i ==> uid_of(#[trigger] all[k]) != Some(uid@),
        decreases rows.len() - i,
    {
        assert(all[i as int] == rows@[i as int]@);
        let hit = match &rows[i] {
            FlatNavigationItem::Message(msg) => match &msg.uid {
                Some(u) => *u == wanted,
                None => false,
            },
            FlatNavigationItem::GroupHeader(_) => false,
        };
        if hit {
            return Some(i);
        }
        i += 1;
    }
    None
}

/// Where the selection stands after the list has been made anew. If a uid
/// was remembered and a row shows its record, that row is selected and the
/// window moved by as little as shows it. Otherwise the old position is kept,
/// brought into the rows that exist.
pub fn restore_selection(
    rows: &Vec<FlatNavigationItem>,
    remembered: &Option<String>,
    previous: Selection,
    viewport: usize,
) -> (r: Selection)
    ensures
        match text_of(*remembered) {
            Some(uid) => if has_no_uid(rows_of(rows@), uid) {
                r.position == clamped_position(previous.position as int, rows@.len() as int)
                    && r.scroll_offset == previous.scroll_offset
            } else {
                is_first_with_uid(rows_of(rows@), uid, r.position as int) && r.scroll_offset
                    == offset_showing(
                    previous.scroll_offset as int,
                    r.position as int,
                    viewport as int,
                )
            },
            None => r.position == clamped_position(previous.position as int, rows@.len() as int)
                && r.scroll_offset == previous.scroll_offset,
        },
{
    let found = match remembered {
        Some(uid) => find_uid(rows, uid.as_str()),
        None => None,
    };
    match found {
        Some(at) => {
            let offset = if at < previous.scroll_offset {
                at
            } else if viewport > 0 && at - previous.scroll_offset >= viewport {
                at - viewport + 1
            } else {
                previous.scroll_offset
            };
            Selection { position: at, scroll_offset: offset }
        },
        None => {
            let position = if rows.len() == 0 {
                0
            } else if previous.position >= rows.len() {
                rows.len() - 1
            } else {
                previous.position
            };
            Selection { position, scroll_offset: previous.scroll_offset }
        },
    }
}

/// Whether `r` is a record of an expanded group and passes the filter.
pub open spec fn is_listed(
    groups: Seq<Group>,
    expanded: Set<GroupKey>,
    filter: Seq<char>,
    r: LogRecord,
) -> bool {
    exists|g: int, m: int|
        0 <= g < groups.len() && 0 <= m < groups[g].members.len() && (
        #[trigger] groups[g].members[m]) == r && expanded.contains(groups[g].key)
            && matches_filter(r, filter)
}

/// Whether a row of `rows` shows `r`.
pub open spec fn shows(rows: Seq<Row>, r: LogRecord) -> bool {
    exists|i: int| 0 <= i < rows.len() && #[trigger] rows[i] == Row::Member(r)
}

/// A record that passes the filter is among those that pass.
proof fn lemma_matching_holds(members: Seq<LogRecord>, filter: Seq<char>, m: int)
    requires
        0 <= m < members.len(),
        matches_filter(members[m], filter),
    ensures
        exists|k: int|
            0 <= k < matching(members, filter).len() && #[trigger] matching(members, filter)[k]
                == members[m],
    decreases members.len(),
{
    let out = matching(members, filter);
    if m == members.len() - 1 {
        assert(out[out.len() - 1] == members[m]);
    } else {
        let front = members.drop_last();
        lemma_matching_holds(front, filter, m);
        let k = choose|k: int|
            0 <= k < matching(front, filter).len() && #[trigger] matching(front, filter)[k]
                == front[m];
        assert(out[k] == members[m]);
    }
}

/// The records that pass the filter pass it.
proof fn lemma_matching_passes(members: Seq<LogRecord>, filter: Seq<char>)
    ensures
        forall|k: int|
            0 <= k < matching(members, filter).len() ==> matches_filter(
                #[trigger] matching(members, filter)[k],
                filter,
            ),
    decreases members.len(),
{
    if members.len() > 0 {
        let front = matching(members.drop_last(), filter);
        lemma_matching_passes(members.drop_last(), filter);
        let out = matching(members, filter);
        assert forall|k: int| 0 <= k < out.len() implies matches_filter(#[trigger] out[k], filter) by {
            if k < front.len() {
                assert(out[k] == front[k]);
            }
        }
    }
}

/// Sorting loses no record.
proof fn lemma_sorted_holds(s: Seq<LogRecord>, k: int)
    requires
        0 <= k < s.len(),
    ensures
        exists|i: int| 0 <= i < newest_first(s).len() && #[trigger] newest_first(s)[i] == s[k],
{
    broadcast use vstd::seq_lib::to_multiset_contains;

    lemma_newest_first(s);
    assert(s.contains(s[k]));
    assert(s.to_multiset().count(s[k]) > 0);
    assert(newest_first(s).to_multiset().count(s[k]) > 0);
    assert(newest_first(s).contains(s[k]));
}

/// The rows that show records are those of the records of expanded groups
/// that pass the filter.
pub proof fn lemma_shown_is_listed(
    groups: Seq<Group>,
    expanded: Set<GroupKey>,
    filter: Seq<char>,
    r: LogRecord,
)
    ensures
        shows(flattened(groups, expanded, filter), r) <==> is_listed(groups, expanded, filter, r),
    decreases groups.len(),
{
    let rows = flattened(groups, expanded, filter);
    if groups.len() > 0 {
        let rest = groups.drop_last();
        let front = flattened(rest, expanded, filter);
        let g = groups.last();
        let block = group_rows(g, expanded, filter);
        let shown = matching(g.members, filter);
        let sorted = newest_first(shown);
        lemma_shown_is_listed(rest, expanded, filter, r);
        lemma_newest_first(shown);
        lemma_matching_members(g.members, filter);
        lemma_matching_passes(g.members, filter);
        if shows(rows, r) {
            let i = choose|i: int| 0 <= i < rows.len() && #[trigger] rows[i] == Row::Member(r);
            if i < front.len() {
                assert(front[i] == Row::Member(r));
                let (a, m) = choose|a: int, m: int|
                    0 <= a < rest.len() && 0 <= m < rest[a].members.len() && (
                    #[trigger] rest[a].members[m]) == r && expanded.contains(rest[a].key)
                        && matches_filter(r, filter);
                assert(groups[a] == rest[a]);
                assert(groups[a].members[m] == r);
            } else {
                let k = i - front.len();
                assert(rows[i] == block[k]);
                assert(block =~= seq![Row::Header(g.key)] + member_rows(sorted));
                assert(k > 0);
                assert(block[k] == Row::Member(sorted[k - 1]));
                let a = choose|a: int| 0 <= a < shown.len() && shown[a] == sorted[k - 1];
                let b = choose|b: int| 0 <= b < g.members.len() && g.members[b] == shown[a];
                assert(matches_filter(shown[a], filter));
                assert(groups[groups.len() - 1].members[b] == r);
            }
        }
        if is_listed(groups, expanded, filter, r) {
            let (a, m) = choose|a: int, m: int|
                0 <= a < groups.len() && 0 <= m < groups[a].members.len() && (
                #[trigger] groups[a].members[m]) == r && expanded.contains(groups[a].key)
                    && matches_filter(r, filter);
            if a < rest.len() {
                assert(rest[a] == groups[a]);
                assert(rest[a].members[m] == r);
                assert(is_listed(rest, expanded, filter, r));
                let i = choose|i: int| 0 <= i < front.len() && #[trigger] front[i] == Row::Member(r);
                assert(rows[i] == Row::Member(r));
            } else {
                lemma_matching_holds(g.members, filter, m);
                let k = choose|k: int| 0 <= k < shown.len() && #[trigger] shown[k] == g.members[m];
                lemma_sorted_holds(shown, k);
                let i = choose|i: int| 0 <= i < sorted.len() && #[trigger] sorted[i] == shown[k];
                assert(block =~= seq![Row::Header(g.key)] + member_rows(sorted));
                assert(block[i + 1] == Row::Member(r));
                assert(rows[front.len() + i + 1] == Row::Member(r));
            }
        }
    }
}

/// The members of a key are the records that have it.
proof fn lemma_member_of_records(records: Seq<LogRecord>, key: GroupKey)
    ensures
        forall|m: int|
            0 <= m < members_of(records, key).len() ==> records.contains(
                #[trigger] members_of(records, key)[m],
            ) && group_key(members_of(records, key)[m]) == key,
        forall|i: int|
            0 <= i < records.len() && group_key(#[trigger] records[i]) == key ==> members_of(
                records,
                key,
            ).contains(records[i]),
    decreases records.len(),
{
    if records.len() > 0 {
        let rest = records.drop_last();
        let front = members_of(rest, key);
        let out = members_of(records, key);
        lemma_member_of_records(rest, key);
        assert forall|m: int| 0 <= m < out.len() implies records.contains(#[trigger] out[m])
            && group_key(out[m]) == key by {
            if m < front.len() {
                assert(out[m] == front[m]);
                let i = choose|i: int| 0 <= i < rest.len() && rest[i] == front[m];
                assert(records[i] == out[m]);
            } else {
                assert(records[records.len() - 1] == out[m]);
            }
        }
        assert forall|i: int|
            0 <= i < records.len() && group_key(#[trigger] records[i]) == key implies out.contains(
            records[i],
        ) by {
            if i < rest.len() {
                assert(rest[i] == records[i]);
                let m = choose|m: int| 0 <= m < front.len() && front[m] == rest[i];
                assert(out[m] == records[i]);
            } else {
                assert(out[out.len() - 1] == records[i]);
            }
        }
    }
}

/// A record that the list shows is still shown when records have been added,
/// the pins, the expanded groups and the filter being the same: so a row
/// with its uid is found again, wherever it now stands.
pub proof fn lemma_selection_survives(
    records: Seq<LogRecord>,
    added: Seq<LogRecord>,
    pins: Set<GroupKey>,
    expanded: Set<GroupKey>,
    filter: Seq<char>,
    before: Seq<Group>,
    after: Seq<Group>,
    position: int,
)
    requires
        is_grouping(records, pins, before),
        is_grouping(records + added, pins, after),
        0 <= position < flattened(before, expanded, filter).len(),
        flattened(before, expanded, filter)[position] is Member,
    ensures
        shows(
            flattened(after, expanded, filter),
            flattened(before, expanded, filter)[position]->Member_0,
        ),
        uid_of(flattened(before, expanded, filter)[position]) is Some ==> !has_no_uid(
            flattened(after, expanded, filter),
            uid_of(flattened(before, expanded, filter)[position])->0,
        ),
{
    let rows = flattened(before, expanded, filter);
    let rows2 = flattened(after, expanded, filter);
    let r = rows[position]->Member_0;
    assert(rows[position] == Row::Member(r));
    assert(shows(rows, r));
    lemma_shown_is_listed(before, expanded, filter, r);
    let (g, m) = choose|g: int, m: int|
        0 <= g < before.len() && 0 <= m < before[g].members.len() && (
        #[trigger] before[g].members[m]) == r && expanded.contains(before[g].key)
            && matches_filter(r, filter);
    let key = before[g].key;
    lemma_member_of_records(records, key);
    assert(members_of(records, key)[m] == r);
    let i = choose|i: int| 0 <= i < records.len() && records[i] == r;
    let all = records + added;
    assert(all[i] == r);
    assert(crate::group::has_group(after, group_key(all[i])));
    let g2 = choose|g2: int| 0 <= g2 < after.len() && (#[trigger] after[g2]).key == key;
    lemma_member_of_records(all, key);
    let m2 = choose|m2: int| 0 <= m2 < members_of(all, key).len() && members_of(all, key)[m2] == r;
    assert(after[g2].members[m2] == r);
    assert(is_listed(after, expanded, filter, r));
    lemma_shown_is_listed(after, expanded, filter, r);
    let q = choose|q: int| 0 <= q < rows2.len() && #[trigger] rows2[q] == Row::Member(r);
    assert(uid_of(rows2[q]) == r.uid);
}

/// Whether no two records have the same uid.
pub open spec fn has_unique_uids(records: Seq<LogRecord>) -> bool {
    forall|i: int, j: int|
        0 <= i < records.len() && 0 <= j < records.len() && (#[trigger] records[i]).uid is Some
            && records[i].uid == (#[trigger] records[j]).uid ==> i == j
}

/// Every record that the list shows is one of the records that were grouped.
pub proof fn lemma_shown_is_grouped(
    records: Seq<LogRecord>,
    pins: Set<GroupKey>,
    expanded: Set<GroupKey>,
    filter: Seq<char>,
    groups: Seq<Group>,
    r: LogRecord,
)
    requires
        is_grouping(records, pins, groups),
        shows(flattened(groups, expanded, filter), r),
    ensures
        records.contains(r),
{
    lemma_shown_is_listed(groups, expanded, filter, r);
    let (g, m) = choose|g: int, m: int|
        0 <= g < groups.len() && 0 <= m < groups[g].members.len() && (
        #[trigger] groups[g].members[m]) == r && expanded.contains(groups[g].key)
            && matches_filter(r, filter);
    lemma_member_of_records(records, groups[g].key);
    assert(members_of(records, groups[g].key)[m] == r);
}

/// Where no two records have the same uid, the row found again by the uid of
/// a record shows that very record, after any number of records were added.
pub proof fn lemma_selection_same_record(
    records: Seq<LogRecord>,
    added: Seq<LogRecord>,
    pins: Set<GroupKey>,
    expanded: Set<GroupKey>,
    filter: Seq<char>,
    before: Seq<Group>,
    after: Seq<Group>,
    position: int,
    found: int,
)
    requires
        is_grouping(records, pins, before),
        is_grouping(records + added, pins, after),
        has_unique_uids(records + added),
        0 <= position < flattened(before, expanded, filter).len(),
        uid_of(flattened(before, expanded, filter)[position]) is Some,
        is_first_with_uid(
            flattened(after, expanded, filter),
            uid_of(flattened(before, expanded, filter)[position])->0,
            found,
        ),
    ensures
        flattened(after, expanded, filter)[found] == flattened(
            before,
            expanded,
            filter,
        )[position],
{
    let rows = flattened(before, expanded, filter);
    let rows2 = flattened(after, expanded, filter);
    let all = records + added;
    let r = rows[position]->Member_0;
    let r2 = rows2[found]->Member_0;
    assert(rows[position] == Row::Member(r));
    assert(rows2[found] == Row::Member(r2));
    lemma_selection_survives(records, added, pins, expanded, filter, before, after, position);
    lemma_shown_is_grouped(all, pins, expanded, filter, after, r);
    assert(shows(rows2, r2));
    lemma_shown_is_grouped(all, pins, expanded, filter, after, r2);
    let i = choose|i: int| 0 <= i < all.len() && all[i] == r;
    let j = choose|j: int| 0 <= j < all.len() && all[j] == r2;
    assert(all[i].uid == all[j].uid);
}

} // verus!
