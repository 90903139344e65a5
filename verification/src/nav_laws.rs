//! What holds of the list of rows.

use crate::group::{is_grouping, members_of, Group};
use crate::nav::{
    flattened, group_rows, matching, member_rows, newest_first, placed_by_time, Row,
};
use crate::record::{group_key, GroupKey, LogRecord};
use crate::text::{lemma_lex_total, lemma_lex_transitive, lex_lt};
use vstd::prelude::*;

verus! {

/// How many of the rows are group headers.
pub open spec fn header_count(rows: Seq<Row>) -> nat
    decreases rows.len(),
{
    if rows.len() == 0 {
        0
    } else {
        header_count(rows.drop_last()) + if rows.last() is Header {
            1nat
        } else {
            0nat
        }
    }
}

/// How many of the rows are records.
pub open spec fn member_count(rows: Seq<Row>) -> nat
    decreases rows.len(),
{
    if rows.len() == 0 {
        0
    } else {
        member_count(rows.drop_last()) + if rows.last() is Member {
            1nat
        } else {
            0nat
        }
    }
}

/// How many groups have a record that passes the filter.
pub open spec fn shown_groups(groups: Seq<Group>, filter: Seq<char>) -> nat
    decreases groups.len(),
{
    if groups.len() == 0 {
        0
    } else {
        shown_groups(groups.drop_last(), filter) + if matching(groups.last().members, filter).len()
            > 0 {
            1nat
        } else {
            0nat
        }
    }
}

/// How many records of expanded groups pass the filter.
pub open spec fn shown_members(groups: Seq<Group>, expanded: Set<GroupKey>, filter: Seq<char>) -> nat
    decreases groups.len(),
{
    if groups.len() == 0 {
        0
    } else {
        shown_members(groups.drop_last(), expanded, filter) + if expanded.contains(
            groups.last().key,
        ) {
            matching(groups.last().members, filter).len()
        } else {
            0nat
        }
    }
}

/// The row of the nearest header at or before row `i`; -1 if there is none.
pub open spec fn header_before(rows: Seq<Row>, i: int) -> int
    decreases i + 1,
{
    if i < 0 || i >= rows.len() {
        -1
    } else if rows[i] is Header {
        i
    } else {
        header_before(rows, i - 1)
    }
}

/// Every record of every group has the key of its group.
pub open spec fn keyed(groups: Seq<Group>) -> bool {
    forall|g: int, m: int|
        0 <= g < groups.len() && 0 <= m < groups[g].members.len() ==> group_key(
            #[trigger] groups[g].members[m],
        ) == groups[g].key
}

/// The counts of rows put one behind the other add up.
proof fn lemma_counts_add(a: Seq<Row>, b: Seq<Row>)
    ensures
        header_count(a + b) == header_count(a) + header_count(b),
        member_count(a + b) == member_count(a) + member_count(b),
    decreases b.len(),
{
    if b.len() == 0 {
        assert(a + b =~= a);
    } else {
        assert((a + b).drop_last() =~= a + b.drop_last());
        lemma_counts_add(a, b.drop_last());
    }
}

/// Rows of records count as records.
proof fn lemma_member_rows_counts(s: Seq<LogRecord>)
    ensures
        header_count(member_rows(s)) == 0,
        member_count(member_rows(s)) == s.len(),
    decreases s.len(),
{
    if s.len() > 0 {
        assert(member_rows(s).drop_last() =~= member_rows(s.drop_last()));
        lemma_member_rows_counts(s.drop_last());
    }
}

/// Placing a record keeps the records that were there and adds that one.
pub proof fn lemma_placed(sorted: Seq<LogRecord>, r: LogRecord)
    ensures
        placed_by_time(sorted, r).len() == sorted.len() + 1,
        placed_by_time(sorted, r).to_multiset() == sorted.to_multiset().insert(r),
    decreases sorted.len(),
{
    broadcast use vstd::seq_lib::to_multiset_build;

    if sorted.len() > 0 && lex_lt(sorted.last().timestamp, r.timestamp) {
        lemma_placed(sorted.drop_last(), r);
        assert(sorted =~= sorted.drop_last().push(sorted.last()));
        assert(placed_by_time(sorted, r).to_multiset() =~= sorted.to_multiset().insert(r));
    }
}

/// Whether no record stands before a newer one.
pub open spec fn is_newest_first(s: Seq<LogRecord>) -> bool {
    forall|i: int, j: int|
        0 <= i < j < s.len() ==> !lex_lt((#[trigger] s[i]).timestamp, (#[trigger] s[j]).timestamp)
}

/// Placing a record into records that are in order leaves them in order.
proof fn lemma_placed_ordered(sorted: Seq<LogRecord>, r: LogRecord)
    requires
        is_newest_first(sorted),
    ensures
        is_newest_first(placed_by_time(sorted, r)),
        placed_by_time(sorted, r).len() == sorted.len() + 1,
        forall|i: int|
            0 <= i < sorted.len() + 1 ==> (#[trigger] placed_by_time(sorted, r)[i]) == r || (exists|
                k: int,
            |
                0 <= k < sorted.len() && sorted[k] == placed_by_time(sorted, r)[i]),
    decreases sorted.len(),
{
    lemma_placed(sorted, r);
    let out = placed_by_time(sorted, r);
    if sorted.len() > 0 && lex_lt(sorted.last().timestamp, r.timestamp) {
        let front = sorted.drop_last();
        assert(is_newest_first(front)) by {
            assert forall|i: int, j: int| 0 <= i < j < front.len() implies !lex_lt(
                (#[trigger] front[i]).timestamp,
                (#[trigger] front[j]).timestamp,
            ) by {
                assert(front[i] == sorted[i] && front[j] == sorted[j]);
            }
        }
        lemma_placed_ordered(front, r);
        let inner = placed_by_time(front, r);
        assert forall|i: int, j: int| 0 <= i < j < out.len() implies !lex_lt(
            (#[trigger] out[i]).timestamp,
            (#[trigger] out[j]).timestamp,
        ) by {
            if j < inner.len() {
                assert(out[i] == inner[i] && out[j] == inner[j]);
            } else {
                assert(out[j] == sorted.last());
                assert(out[i] == inner[i]);
                if inner[i] == r {
                    lemma_lex_total(sorted.last().timestamp, r.timestamp);
                } else {
                    let k = choose|k: int| 0 <= k < front.len() && front[k] == inner[i];
                    assert(sorted[k] == front[k]);
                    assert(!lex_lt(sorted[k].timestamp, sorted[sorted.len() - 1].timestamp));
                }
            }
        }
        assert forall|i: int| 0 <= i < sorted.len() + 1 implies (#[trigger] out[i]) == r || (exists|
            k: int,
        |
            0 <= k < sorted.len() && sorted[k] == out[i]) by {
            if i < inner.len() {
                assert(out[i] == inner[i]);
                if inner[i] != r {
                    let k = choose|k: int| 0 <= k < front.len() && front[k] == inner[i];
                    assert(sorted[k] == out[i]);
                }
            } else {
                assert(sorted[sorted.len() - 1] == out[i]);
            }
        }
    } else {
        assert forall|i: int, j: int| 0 <= i < j < out.len() implies !lex_lt(
            (#[trigger] out[i]).timestamp,
            (#[trigger] out[j]).timestamp,
        ) by {
            if j < sorted.len() {
                assert(out[i] == sorted[i] && out[j] == sorted[j]);
            } else if sorted.len() > 0 {
                let older = sorted[i].timestamp;
                let oldest = sorted[sorted.len() - 1].timestamp;
                assert(out[i] == sorted[i] && out[j] == r);
                if lex_lt(older, r.timestamp) {
                    assert(i < sorted.len() - 1 ==> !lex_lt(older, oldest));
                    lemma_lex_total(oldest, r.timestamp);
                    if oldest != r.timestamp {
                        lemma_lex_transitive(older, r.timestamp, oldest);
                    }
                }
            }
        }
        assert forall|i: int| 0 <= i < sorted.len() + 1 implies (#[trigger] out[i]) == r || (exists|
            k: int,
        |
            0 <= k < sorted.len() && sorted[k] == out[i]) by {
            if i < sorted.len() {
                assert(sorted[i] == out[i]);
            }
        }
    }
}

/// Sorting newest first orders the records from the newest to the oldest and
/// neither loses nor adds one.
pub proof fn lemma_newest_first(s: Seq<LogRecord>)
    ensures
        is_newest_first(newest_first(s)),
        newest_first(s).len() == s.len(),
        newest_first(s).to_multiset() == s.to_multiset(),
        forall|i: int|
            0 <= i < s.len() ==> exists|k: int|
                0 <= k < s.len() && s[k] == #[trigger] newest_first(s)[i],
    decreases s.len(),
{
    broadcast use vstd::seq_lib::to_multiset_build;

    if s.len() == 0 {
        assert(s =~= Seq::<LogRecord>::empty());
    } else {
        let front = s.drop_last();
        lemma_newest_first(front);
        lemma_placed_ordered(newest_first(front), s.last());
        lemma_placed(newest_first(front), s.last());
        assert(s =~= front.push(s.last()));
        let inner = newest_first(front);
        let out = newest_first(s);
        assert forall|i: int| 0 <= i < s.len() implies exists|k: int|
            0 <= k < s.len() && s[k] == #[trigger] out[i] by {
            if out[i] == s.last() {
                assert(s[s.len() - 1] == out[i]);
            } else {
                let k = choose|k: int| 0 <= k < inner.len() && inner[k] == out[i];
                let w = choose|w: int| 0 <= w < front.len() && front[w] == inner[k];
                assert(s[w] == out[i]);
            }
        }
    }
}

/// The records that pass the filter are records of the sequence.
pub proof fn lemma_matching_members(members: Seq<LogRecord>, filter: Seq<char>)
    ensures
        matching(members, filter).len() <= members.len(),
        forall|i: int|
            0 <= i < matching(members, filter).len() ==> exists|k: int|
                0 <= k < members.len() && members[k] == #[trigger] matching(members, filter)[i],
    decreases members.len(),
{
    if members.len() > 0 {
        let front = members.drop_last();
        lemma_matching_members(front, filter);
        let out = matching(members, filter);
        assert forall|i: int| 0 <= i < out.len() implies exists|k: int|
            0 <= k < members.len() && members[k] == #[trigger] out[i] by {
            if i < matching(front, filter).len() {
                let k = choose|k: int|
                    0 <= k < front.len() && front[k] == matching(front, filter)[i];
                assert(members[k] == out[i]);
            } else {
                assert(members[members.len() - 1] == out[i]);
            }
        }
    }
}

/// The list has one header for each group of which a record passes the
/// filter, and one record row for each record of an expanded group that
/// passes it, and no other row.
pub proof fn lemma_flattened_counts(groups: Seq<Group>, expanded: Set<GroupKey>, filter: Seq<char>)
    ensures
        flattened(groups, expanded, filter).len() == header_count(
            flattened(groups, expanded, filter),
        ) + member_count(flattened(groups, expanded, filter)),
        header_count(flattened(groups, expanded, filter)) == shown_groups(groups, filter),
        member_count(flattened(groups, expanded, filter)) == shown_members(
            groups,
            expanded,
            filter,
        ),
    decreases groups.len(),
{
    if groups.len() > 0 {
        let front = flattened(groups.drop_last(), expanded, filter);
        let g = groups.last();
        let block = group_rows(g, expanded, filter);
        lemma_flattened_counts(groups.drop_last(), expanded, filter);
        lemma_counts_add(front, block);
        let shown = matching(g.members, filter);
        if shown.len() > 0 {
            let head = seq![Row::Header(g.key)];
            assert(head.drop_last() =~= Seq::<Row>::empty());
            assert(header_count(head) == 1 && member_count(head) == 0) by {
                reveal_with_fuel(header_count, 2);
                reveal_with_fuel(member_count, 2);
            }
            if expanded.contains(g.key) {
                lemma_newest_first(shown);
                lemma_member_rows_counts(newest_first(shown));
                lemma_counts_add(head, member_rows(newest_first(shown)));
            }
        }
    }
}

/// A header row is its own nearest header, and the nearest header of a row
/// of a list is the same in every list that goes on from it.
proof fn lemma_header_before_prefix(a: Seq<Row>, b: Seq<Row>, i: int)
    requires
        0 <= i < a.len(),
    ensures
        header_before(a + b, i) == header_before(a, i),
    decreases i,
{
    assert((a + b)[i] == a[i]);
    if !(a[i] is Header) {
        if i > 0 {
            lemma_header_before_prefix(a, b, i - 1);
        } else {
            assert(header_before(a + b, -1) == -1 && header_before(a, -1) == -1);
        }
    }
}

/// Inside the rows of one group the nearest header is the header of that
/// group.
proof fn lemma_header_before_block(front: Seq<Row>, block: Seq<Row>, k: int)
    requires
        block.len() > 0,
        block[0] is Header,
        forall|t: int| 1 <= t < block.len() ==> (#[trigger] block[t]) is Member,
        0 <= k < block.len(),
    ensures
        header_before(front + block, front.len() + k) == front.len(),
    decreases k,
{
    let rows = front + block;
    assert(rows[front.len() + k] == block[k]);
    if k > 0 {
        lemma_header_before_block(front, block, k - 1);
    }
}

/// No record row is an orphan: the nearest header above the row of a record
/// is the header of the record's own group.
pub proof fn lemma_no_orphans(
    groups: Seq<Group>,
    expanded: Set<GroupKey>,
    filter: Seq<char>,
    i: int,
)
    requires
        keyed(groups),
        0 <= i < flattened(groups, expanded, filter).len(),
        flattened(groups, expanded, filter)[i] is Member,
    ensures
        0 <= header_before(flattened(groups, expanded, filter), i) < i,
        flattened(groups, expanded, filter)[header_before(
            flattened(groups, expanded, filter),
            i,
        )] == Row::Header(group_key(flattened(groups, expanded, filter)[i]->Member_0)),
    decreases groups.len(),
{
    if groups.len() > 0 {
        let rest = groups.drop_last();
        let front = flattened(rest, expanded, filter);
        let g = groups.last();
        let block = group_rows(g, expanded, filter);
        let rows = front + block;
        if i < front.len() {
            assert(keyed(rest)) by {
                assert forall|a: int, m: int|
                    0 <= a < rest.len() && 0 <= m < rest[a].members.len() implies group_key(
                    #[trigger] rest[a].members[m],
                ) == rest[a].key by {
                    assert(rest[a] == groups[a]);
                }
            }
            assert(rows[i] == front[i]);
            lemma_no_orphans(rest, expanded, filter, i);
            lemma_header_before_prefix(front, block, i);
            assert(rows[header_before(front, i)] == front[header_before(front, i)]);
        } else {
            let k = i - front.len();
            let shown = matching(g.members, filter);
            let sorted = newest_first(shown);
            assert(rows[i] == block[k]);
            assert(block =~= seq![Row::Header(g.key)] + member_rows(sorted));
            assert(k > 0);
            assert(block[k] == Row::Member(sorted[k - 1]));
            lemma_header_before_block(front, block, k);
            assert(rows[front.len() as int] == block[0]);
            lemma_newest_first(shown);
            lemma_matching_members(g.members, filter);
            let a = choose|a: int| 0 <= a < shown.len() && shown[a] == sorted[k - 1];
            let b = choose|b: int| 0 <= b < g.members.len() && g.members[b] == shown[a];
            assert(groups[groups.len() - 1] == g);
            assert(group_key(groups[groups.len() - 1].members[b]) == g.key);
        }
    }
}

/// The records that have a key all have that key.
pub proof fn lemma_members_have_key(records: Seq<LogRecord>, key: GroupKey)
    ensures
        forall|i: int|
            0 <= i < members_of(records, key).len() ==> group_key(
                #[trigger] members_of(records, key)[i],
            ) == key,
    decreases records.len(),
{
    if records.len() > 0 {
        let front = members_of(records.drop_last(), key);
        lemma_members_have_key(records.drop_last(), key);
        let out = members_of(records, key);
        assert forall|i: int| 0 <= i < out.len() implies group_key(#[trigger] out[i]) == key by {
            if i < front.len() {
                assert(out[i] == front[i]);
            }
        }
    }
}

/// In a grouping every record has the key of its group.
pub proof fn lemma_grouping_keyed(records: Seq<LogRecord>, pins: Set<GroupKey>, groups: Seq<Group>)
    requires
        is_grouping(records, pins, groups),
    ensures
        keyed(groups),
{
    assert forall|g: int, m: int|
        0 <= g < groups.len() && 0 <= m < groups[g].members.len() implies group_key(
        #[trigger] groups[g].members[m],
    ) == groups[g].key by {
        lemma_members_have_key(records, groups[g].key);
    }
}

} // verus!
