//! The list of rows: group headers and the records of expanded groups.

use crate::group::{records_of, Group, GroupedLogMessages};
use crate::keys::KeySet;
use crate::nav_laws::{
    is_newest_first, lemma_flattened_counts, lemma_newest_first, shown_groups, shown_members,
};
use crate::record::{group_key, GroupKey, LogRecord, RequestGroup, SqlLogMessage};
use crate::text::{
    chars_of, contains_chars, is_substring, lex_lt, lowercase, str_lt, to_lowercase,
};
use vstd::prelude::*;

verus! {

/// One row of the list: the header of a group, or one record of a group.
#[derive(Debug)]
pub enum FlatNavigationItem<'a> {
    GroupHeader(RequestGroup),
    Message(&'a SqlLogMessage),
}

/// What a row holds.
pub ghost enum Row {
    Header(GroupKey),
    Member(LogRecord),
}

impl<'a> View for FlatNavigationItem<'a> {
    type V = Row;

    open spec fn view(&self) -> Row {
        match self {
            FlatNavigationItem::GroupHeader(g) => Row::Header(g@),
            FlatNavigationItem::Message(m) => Row::Member(m@),
        }
    }
}

/// What a sequence of rows holds.
pub open spec fn rows_of(v: Seq<FlatNavigationItem>) -> Seq<Row> {
    Seq::new(v.len(), |i: int| v[i]@)
}

/// What a sequence of borrowed records holds.
pub open spec fn refs_of(v: Seq<&SqlLogMessage>) -> Seq<LogRecord> {
    Seq::new(v.len(), |i: int| v[i]@)
}

/// Whether `field` holds `filter`, letter case set aside.
pub open spec fn field_matches(field: Seq<char>, filter: Seq<char>) -> bool {
    is_substring(lowercase(filter), lowercase(field))
}

/// Whether an optional field is there and holds `filter`.
pub open spec fn optional_field_matches(field: Option<Seq<char>>, filter: Seq<char>) -> bool {
    match field {
        Some(f) => field_matches(f, filter),
        None => false,
    }
}

/// Whether a record passes the filter: every record passes the empty filter;
/// another one is passed by a record whose method tag, label, caller class or
/// caller method holds it, letter case set aside.
pub open spec fn matches_filter(r: LogRecord, filter: Seq<char>) -> bool {
    ||| filter.len() == 0
    ||| field_matches(group_key(r).method, filter)
    ||| field_matches(group_key(r).label, filter)
    ||| optional_field_matches(r.caller_class, filter)
    ||| optional_field_matches(r.caller_method, filter)
}

/// The records of `members` that pass the filter, in their order.
pub open spec fn matching(members: Seq<LogRecord>, filter: Seq<char>) -> Seq<LogRecord>
    decreases members.len(),
{
    if members.len() == 0 {
        Seq::empty()
    } else {
        let rest = matching(members.drop_last(), filter);
        if matches_filter(members.last(), filter) {
            rest.push(members.last())
        } else {
            rest
        }
    }
}

/// `r` put into `sorted` behind every record that is not older than it.
pub open spec fn placed_by_time(sorted: Seq<LogRecord>, r: LogRecord) -> Seq<LogRecord>
    decreases sorted.len(),
{
    if sorted.len() > 0 && lex_lt(sorted.last().timestamp, r.timestamp) {
        placed_by_time(sorted.drop_last(), r).push(sorted.last())
    } else {
        sorted.push(r)
    }
}

/// The records from the newest timestamp to the oldest; records with the
/// same timestamp keep their order.
pub open spec fn newest_first(s: Seq<LogRecord>) -> Seq<LogRecord>
    decreases s.len(),
{
    if s.len() == 0 {
        Seq::empty()
    } else {
        placed_by_time(newest_first(s.drop_last()), s.last())
    }
}

/// One member row for each record.
pub open spec fn member_rows(s: Seq<LogRecord>) -> Seq<Row> {
    Seq::new(s.len(), |i: int| Row::Member(s[i]))
}

/// The rows of one group: none if no record of it passes the filter; else
/// its header, and, if the group is expanded, the records that pass, newest
/// first.
pub open spec fn group_rows(g: Group, expanded: Set<GroupKey>, filter: Seq<char>) -> Seq<Row> {
    let shown = matching(g.members, filter);
    if shown.len() == 0 {
        Seq::empty()
    } else if expanded.contains(g.key) {
        seq![Row::Header(g.key)] + member_rows(newest_first(shown))
    } else {
        seq![Row::Header(g.key)]
    }
}

/// The list of rows: the rows of each group, group after group.
pub open spec fn flattened(groups: Seq<Group>, expanded: Set<GroupKey>, filter: Seq<char>) -> Seq<
    Row,
>
    decreases groups.len(),
{
    if groups.len() == 0 {
        Seq::empty()
    } else {
        flattened(groups.drop_last(), expanded, filter) + group_rows(
            groups.last(),
            expanded,
            filter,
        )
    }
}

/// Whether `field` holds the filter, given the filter in lower case.
fn field_holds(field: &str, needle: &Vec<char>, Ghost(filter): Ghost<Seq<char>>) -> (r: bool)
    requires
        needle@ == lowercase(filter),
    ensures
        r == field_matches(field@, filter),
{
    let lower = to_lowercase(field);
    let hay = chars_of(lower.as_str());
    contains_chars(&hay, needle)
}

/// Whether an optional field is there and holds the filter.
fn optional_field_holds(
    field: &Option<String>,
    needle: &Vec<char>,
    Ghost(filter): Ghost<Seq<char>>,
) -> (r: bool)
    requires
        needle@ == lowercase(filter),
    ensures
        r == optional_field_matches(crate::record::text_of(*field), filter),
{
    match field {
        Some(f) => field_holds(f.as_str(), needle, Ghost(filter)),
        None => false,
    }
}

/// Whether a record passes the filter, given the filter in lower case.
fn passes(msg: &SqlLogMessage, filter_is_empty: bool, needle: &Vec<char>, Ghost(filter): Ghost<
    Seq<char>,
>) -> (r: bool)
    requires
        needle@ == lowercase(filter),
        filter_is_empty == (filter.len() == 0),
    ensures
        r == matches_filter(msg@, filter),
{
    if filter_is_empty {
        return true;
    }
    let key = RequestGroup::from_message(msg);
    field_holds(key.http_method.as_str(), needle, Ghost(filter)) || field_holds(
        key.endpoint.as_str(),
        needle,
        Ghost(filter),
    ) || optional_field_holds(&msg.caller_class, needle, Ghost(filter)) || optional_field_holds(
        &msg.caller_method,
        needle,
        Ghost(filter),
    )
}

/// Whether a record passes the filter.
pub fn message_matches(msg: &SqlLogMessage, filter_text: &str) -> (r: bool)
    ensures
        r == matches_filter(msg@, filter_text@),
{
    let lower = to_lowercase(filter_text);
    let needle = chars_of(lower.as_str());
    passes(msg, filter_text.is_empty(), &needle, Ghost(filter_text@))
}

/// The records that pass the filter, given the filter in lower case.
fn select_matching<'a>(
    log_lines: &'a [SqlLogMessage],
    blank: bool,
    needle: &Vec<char>,
    Ghost(filter): Ghost<Seq<char>>,
) -> (r: Vec<&'a SqlLogMessage>)
    requires
        needle@ == lowercase(filter),
        blank == (filter.len() == 0),
    ensures
        refs_of(r@) == matching(records_of(log_lines@), filter),
{
    let ghost all = records_of(log_lines@);
    let mut r: Vec<&'a SqlLogMessage> = Vec::new();
    let mut i: usize = 0;
    assert(all.take(0) =~= Seq::<LogRecord>::empty());
    assert(refs_of(r@) =~= Seq::<LogRecord>::empty());
    while i < log_lines.len()
        invariant
            i <= log_lines.len(),
            all == records_of(log_lines@),
            needle@ == lowercase(filter),
            blank == (filter.len() == 0),
            refs_of(r@) == matching(all.take(i as int), filter),
        decreases log_lines.len() - i,
    {
        proof {
            assert(all.take(i + 1).drop_last() =~= all.take(i as int));
            assert(all.take(i + 1).last() == log_lines@[i as int]@);
        }
        if passes(&log_lines[i], blank, needle, Ghost(filter)) {
            let ghost before = r@;
            r.push(&log_lines[i]);
            assert(refs_of(r@) =~= refs_of(before).push(log_lines@[i as int]@));
        }
        i += 1;
    }
    assert(all.take(log_lines@.len() as int) =~= all);
    r
}

/// The records of `log_lines` that pass the filter, in their order.
pub fn filter_log_lines<'a>(log_lines: &'a [SqlLogMessage], filter_text: &str) -> (r: Vec<
    &'a SqlLogMessage,
>)
    ensures
        refs_of(r@) == matching(records_of(log_lines@), filter_text@),
{
    let lower = to_lowercase(filter_text);
    let needle = chars_of(lower.as_str());
    select_matching(log_lines, filter_text.is_empty(), &needle, Ghost(filter_text@))
}

/// Puts records in order from the newest timestamp to the oldest; records
/// with the same timestamp keep their order.
pub fn sort_newest_first<'a>(records: &Vec<&'a SqlLogMessage>) -> (r: Vec<&'a SqlLogMessage>)
    ensures
        refs_of(r@) == newest_first(refs_of(records@)),
        is_newest_first(refs_of(r@)),
        refs_of(r@).to_multiset() == refs_of(records@).to_multiset(),
{
    proof {
        lemma_newest_first(refs_of(records@));
    }
    let ghost all = refs_of(records@);
    let mut r: Vec<&'a SqlLogMessage> = Vec::new();
    let mut i: usize = 0;
    assert(all.take(0) =~= Seq::<LogRecord>::empty());
    assert(refs_of(r@) =~= Seq::<LogRecord>::empty());
    while i < records.len()
        invariant
            i <= records.len(),
            all == refs_of(records@),
            refs_of(r@) == newest_first(all.take(i as int)),
        decreases records.len() - i,
    {
        let item: &'a SqlLogMessage = records[i];
        let ghost sorted = refs_of(r@);
        proof {
            assert(all.take(i + 1).drop_last() =~= all.take(i as int));
            assert(all.take(i + 1).last() == item@);
        }
        let mut p: usize = r.len();
        proof {
            assert(sorted.take(p as int) =~= sorted);
            assert(placed_by_time(sorted, item@) + sorted.skip(p as int) =~= placed_by_time(
                sorted,
                item@,
            ));
        }
        while p > 0 && str_lt(r[p - 1].timestamp.as_str(), item.timestamp.as_str())
            invariant
                p <= r.len(),
                sorted == refs_of(r@),
                placed_by_time(sorted, item@) == placed_by_time(sorted.take(p as int), item@)
                    + sorted.skip(p as int),
            decreases p,
        {
            proof {
                let head = sorted.take(p as int);
                assert(head.last() == r@[p - 1]@);
                assert(head.drop_last() =~= sorted.take(p - 1));
                assert(placed_by_time(head.drop_last(), item@).push(head.last()) + sorted.skip(
                    p as int,
                ) =~= placed_by_time(sorted.take(p - 1), item@) + sorted.skip(p - 1));
            }
            p -= 1;
        }
        proof {
            let head = sorted.take(p as int);
            if p > 0 {
                assert(head.last() == r@[p - 1]@);
            }
            assert(placed_by_time(head, item@) == head.push(item@));
        }
        r.insert(p, item);
        assert(refs_of(r@) =~= sorted.take(p as int).push(item@) + sorted.skip(p as int));
        i += 1;
    }
    assert(all.take(records@.len() as int) =~= all);
    r
}

/// The list of rows for the groups as they stand: for each group of which a
/// record passes the filter its header, followed, where the group is
/// expanded, by the records that pass, newest first.
pub fn create_flat_navigation_structure<'a>(
    grouped_messages: &'a GroupedLogMessages,
    expanded_groups: &KeySet,
    filter_text: &str,
) -> (flat_items: Vec<FlatNavigationItem<'a>>)
    ensures
        rows_of(flat_items@) == flattened(grouped_messages@, expanded_groups@, filter_text@),
        flat_items@.len() == shown_groups(grouped_messages@, filter_text@) + shown_members(
            grouped_messages@,
            expanded_groups@,
            filter_text@,
        ),
{
    proof {
        lemma_flattened_counts(grouped_messages@, expanded_groups@, filter_text@);
    }
    let lower = to_lowercase(filter_text);
    let needle = chars_of(lower.as_str());
    let blank = filter_text.is_empty();
    let ghost all = grouped_messages@;
    let ghost filter = filter_text@;
    let ghost expanded = expanded_groups@;
    let mut flat_items: Vec<FlatNavigationItem<'a>> = Vec::new();
    let mut g: usize = 0;
    assert(all.take(0) =~= Seq::<Group>::empty());
    assert(rows_of(flat_items@) =~= Seq::<Row>::empty());
    while g < grouped_messages.groups.len()
        invariant
            g <= grouped_messages.groups.len(),
            all == grouped_messages@,
            filter == filter_text@,
            expanded == expanded_groups@,
            needle@ == lowercase(filter),
            blank == (filter.len() == 0),
            rows_of(flat_items@) == flattened(all.take(g as int), expanded, filter),
        decreases grouped_messages.groups.len() - g,
    {
        let group: &'a (RequestGroup, Vec<SqlLogMessage>) = &grouped_messages.groups[g];
        let ghost base = rows_of(flat_items@);
        let ghost gv = all[g as int];
        proof {
            assert(all.take(g + 1).drop_last() =~= all.take(g as int));
            assert(all.take(g + 1).last() == gv);
            assert(gv.key == group.0@ && gv.members == records_of(group.1@));
        }
        let shown = select_matching(group.1.as_slice(), blank, &needle, Ghost(filter));
        if shown.len() > 0 {
            let ghost before = flat_items@;
            flat_items.push(FlatNavigationItem::GroupHeader(group.0.clone()));
            assert(rows_of(flat_items@) =~= base + seq![Row::Header(gv.key)]);
            if expanded_groups.contains(&group.0) {
                let sorted = sort_newest_first(&shown);
                let ghost members = refs_of(sorted@);
                let mut m: usize = 0;
                assert(member_rows(members.take(0)) =~= Seq::<Row>::empty());
                while m < sorted.len()
                    invariant
                        m <= sorted.len(),
                        members == refs_of(sorted@),
                        rows_of(flat_items@) == base + seq![Row::Header(gv.key)] + member_rows(
                            members.take(m as int),
                        ),
                    decreases sorted.len() - m,
                {
                    let ghost rows = rows_of(flat_items@);
                    flat_items.push(FlatNavigationItem::Message(sorted[m]));
                    proof {
                        assert(members[m as int] == sorted@[m as int]@);
                        assert(rows_of(flat_items@) =~= rows.push(Row::Member(members[m as int])));
                        assert(member_rows(members.take(m + 1)) =~= member_rows(
                            members.take(m as int),
                        ).push(Row::Member(members[m as int])));
                        assert(rows_of(flat_items@) =~= base + seq![Row::Header(gv.key)]
                            + member_rows(members.take(m + 1)));
                    }
                    m += 1;
                }
                assert(members.take(sorted@.len() as int) =~= members);
                assert(rows_of(flat_items@) =~= base + (seq![Row::Header(gv.key)] + member_rows(
                    members,
                )));
            }
        } else {
            assert(base + Seq::<Row>::empty() =~= base);
        }
        g += 1;
    }
    assert(all.take(grouped_messages.groups@.len() as int) =~= all);
    flat_items
}

/// How many rows the list has.
pub fn count_total_rendered_items(
    grouped_messages: &GroupedLogMessages,
    expanded_groups: &KeySet,
    filter_text: &str,
) -> (n: usize)
    ensures
        n == flattened(grouped_messages@, expanded_groups@, filter_text@).len(),
{
    create_flat_navigation_structure(grouped_messages, expanded_groups, filter_text).len()
}

} // verus!
